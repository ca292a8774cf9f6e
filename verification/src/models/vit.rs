//! ViT (Vision Transformer) model graph builder.
//!
//! Constructs a computation graph for ViT variants (Tiny, Small, Base)
//! as defined in "An Image is Worth 16x16 Words" (Dosovitskiy et al., 2020).

use vstd::prelude::*;
use crate::dtype::DType;
use crate::error::{owned, Error, Result};
use crate::graph::builder::{built_by_nodes, first_missing, lemma_none_missing, op_outputs, shapes_of};
use crate::graph::{is_acyclic, Graph, GraphView, TensorId};
use crate::graph::topo::in_degrees_fit;
use crate::op::Op;
use crate::arith::sat_mul_usize;
use crate::op::shape::{patch_tokens, split_rule, sum_sat, first_invalid_dim, infer_count, infer_rule, known_product, perm_scan, product_sat, reshape_rule, shapes_fit, transpose_rule};
use crate::scalar::is_non_negative_bits;
use crate::scalar::Float32;
use crate::text::{dec_text, push_dec};

verus! {

/// Binary32 encoding of the layer-norm epsilon `1e-6`.
pub const LN_EPS_BITS: u32 = 0x3586_37bd;

/// Configuration for a Vision Transformer variant.
#[derive(Debug, Clone)]
pub struct ViTConfig {
    /// Name of this variant (e.g., "ViT-Tiny").
    pub name: String,
    /// Input image height and width (assumed square).
    pub image_size: usize,
    /// Patch size (e.g., 16).
    pub patch_size: usize,
    /// Number of input channels (e.g., 3 for RGB).
    pub in_channels: usize,
    /// Hidden dimension (embedding dim).
    pub hidden_dim: usize,
    /// Number of attention heads.
    pub num_heads: usize,
    /// Intermediate FFN dimension (usually 4 × hidden_dim).
    pub mlp_dim: usize,
    /// Number of transformer layers.
    pub num_layers: usize,
    /// Number of output classes.
    pub num_classes: usize,
    /// Element data type.
    pub dtype: DType,
    /// Batch size.
    pub batch_size: usize,
}

/// `c` has the given numbers: image and patch size, channels, hidden size,
/// heads, MLP size, layers, classes; half precision and batch size 1.
pub open spec fn preset(c: ViTConfig, hidden: usize, heads: usize, mlp: usize) -> bool {
    &&& c.image_size == 224
    &&& c.patch_size == 16
    &&& c.in_channels == 3
    &&& c.hidden_dim == hidden
    &&& c.num_heads == heads
    &&& c.mlp_dim == mlp
    &&& c.num_layers == 12
    &&& c.num_classes == 1000
    &&& c.dtype == DType::F16
    &&& c.batch_size == 1
}

impl ViTConfig {
    /// ViT-Tiny: 5.7M parameters, 192 hidden, 3 heads, 12 layers.
    pub fn tiny() -> (r: Self)
        ensures
            r.name@ == "ViT-Tiny"@,
            preset(r, 192, 3, 768),
    {
        ViTConfig {
            name: owned("ViT-Tiny"),
            image_size: 224,
            patch_size: 16,
            in_channels: 3,
            hidden_dim: 192,
            num_heads: 3,
            mlp_dim: 768,
            num_layers: 12,
            num_classes: 1000,
            dtype: DType::F16,
            batch_size: 1,
        }
    }

    /// ViT-Small: 22M parameters, 384 hidden, 6 heads, 12 layers.
    pub fn small() -> (r: Self)
        ensures
            r.name@ == "ViT-Small"@,
            preset(r, 384, 6, 1536),
    {
        ViTConfig {
            name: owned("ViT-Small"),
            image_size: 224,
            patch_size: 16,
            in_channels: 3,
            hidden_dim: 384,
            num_heads: 6,
            mlp_dim: 1536,
            num_layers: 12,
            num_classes: 1000,
            dtype: DType::F16,
            batch_size: 1,
        }
    }

    /// ViT-Base: 86M parameters, 768 hidden, 12 heads, 12 layers.
    pub fn base() -> (r: Self)
        ensures
            r.name@ == "ViT-Base"@,
            preset(r, 768, 12, 3072),
    {
        ViTConfig {
            name: owned("ViT-Base"),
            image_size: 224,
            patch_size: 16,
            in_channels: 3,
            hidden_dim: 768,
            num_heads: 12,
            mlp_dim: 3072,
            num_layers: 12,
            num_classes: 1000,
            dtype: DType::F16,
            batch_size: 1,
        }
    }

    /// Number of patches per image: `(image_size / patch_size)²`.
    pub open spec fn spec_num_patches(&self) -> int {
        (self.image_size / self.patch_size) * (self.image_size / self.patch_size)
    }

    /// Head dimension (hidden_dim / num_heads).
    pub fn head_dim(&self) -> (r: usize)
        requires
            self.num_heads > 0,
        ensures
            r == self.hidden_dim / self.num_heads,
    {
        self.hidden_dim / self.num_heads
    }

    /// Number of patches.
    pub fn num_patches(&self) -> (r: usize)
        requires
            self.patch_size > 0,
            self.spec_num_patches() <= usize::MAX,
        ensures
            r == self.spec_num_patches(),
    {
        let side = self.image_size / self.patch_size;
        side * side
    }

    /// Sequence length (patches + CLS token).
    pub fn seq_len(&self) -> (r: usize)
        requires
            self.patch_size > 0,
            self.spec_num_patches() + 1 <= usize::MAX,
        ensures
            r == self.spec_num_patches() + 1,
    {
        self.num_patches() + 1
    }
}

/// Why configuration `c` is rejected, checking its fields in a fixed
/// order; `None` when it is accepted.
pub open spec fn config_error(c: ViTConfig) -> Option<Seq<char>> {
    if c.patch_size == 0 {
        Some("patch_size must be > 0"@)
    } else if c.in_channels == 0 {
        Some("in_channels must be > 0"@)
    } else if c.hidden_dim == 0 {
        Some("hidden_dim must be > 0"@)
    } else if c.num_heads == 0 {
        Some("num_heads must be > 0"@)
    } else if c.hidden_dim % c.num_heads != 0 {
        Some("hidden_dim ("@ + dec_text(c.hidden_dim as nat) + ") must be divisible by num_heads ("@
            + dec_text(c.num_heads as nat) + ")"@)
    } else if c.image_size % c.patch_size != 0 {
        Some("image_size ("@ + dec_text(c.image_size as nat) + ") must be divisible by patch_size ("@
            + dec_text(c.patch_size as nat) + ")"@)
    } else if c.batch_size == 0 {
        Some("batch_size must be > 0"@)
    } else if c.mlp_dim == 0 {
        Some("mlp_dim must be > 0"@)
    } else if c.num_layers == 0 {
        Some("num_layers must be > 0"@)
    } else if c.num_classes == 0 {
        Some("num_classes must be > 0"@)
    } else {
        None
    }
}

/// Why configuration `c` is rejected, if it is (see [`config_error`]).
pub fn check_config(c: &ViTConfig) -> (r: Option<String>)
    ensures
        match r {
            Some(m) => config_error(*c) == Some(m@),
            None => config_error(*c) is None,
        },
{
    if c.patch_size == 0 {
        return Some(owned("patch_size must be > 0"));
    }
    if c.in_channels == 0 {
        return Some(owned("in_channels must be > 0"));
    }
    if c.hidden_dim == 0 {
        return Some(owned("hidden_dim must be > 0"));
    }
    if c.num_heads == 0 {
        return Some(owned("num_heads must be > 0"));
    }
    if c.hidden_dim % c.num_heads != 0 {
        let mut m = owned("hidden_dim (");
        push_dec(&mut m, c.hidden_dim as u64);
        m.append(") must be divisible by num_heads (");
        push_dec(&mut m, c.num_heads as u64);
        m.append(")");
        return Some(m);
    }
    if c.image_size % c.patch_size != 0 {
        let mut m = owned("image_size (");
        push_dec(&mut m, c.image_size as u64);
        m.append(") must be divisible by patch_size (");
        push_dec(&mut m, c.patch_size as u64);
        m.append(")");
        return Some(m);
    }
    if c.batch_size == 0 {
        return Some(owned("batch_size must be > 0"));
    }
    if c.mlp_dim == 0 {
        return Some(owned("mlp_dim must be > 0"));
    }
    if c.num_layers == 0 {
        return Some(owned("num_layers must be > 0"));
    }
    if c.num_classes == 0 {
        return Some(owned("num_classes must be > 0"));
    }
    None
}

// ------------------------------------------------------ Shape rule facts

/// A permutation of four axes passes the scan.
proof fn lemma_perm4(p: Seq<usize>)
    requires
        p.len() == 4,
        forall|i: int| 0 <= i < 4 ==> p[i] < 4,
        forall|i: int, j: int| 0 <= i < j < 4 ==> p[i] != p[j],
    ensures
        perm_scan(p, 4, 0) is None,
{
    reveal_with_fuel(perm_scan, 5);
    assert forall|i: int| 0 <= i < 4 implies !p.subrange(0, i).contains(p[i]) by {
        if p.subrange(0, i).contains(p[i]) {
            let j = choose|j: int| 0 <= j < i && p.subrange(0, i)[j] == p[i];
            assert(p[j] == p[i]);
        }
    }
    assert(!p.subrange(0, 0).contains(p[0]));
    assert(!p.subrange(0, 1).contains(p[1]));
    assert(!p.subrange(0, 2).contains(p[2]));
    assert(!p.subrange(0, 3).contains(p[3]));
}

proof fn lemma_perm_0213()
    ensures
        perm_scan(seq![0usize, 2, 1, 3], 4, 0) is None,
{
    lemma_perm4(seq![0usize, 2, 1, 3]);
}

proof fn lemma_perm_0132()
    ensures
        perm_scan(seq![0usize, 1, 3, 2], 4, 0) is None,
{
    lemma_perm4(seq![0usize, 1, 3, 2]);
}

proof fn lemma_transpose_0213(a: Seq<usize>)
    requires
        a.len() == 4,
    ensures
        transpose_rule(seq![0usize, 2, 1, 3], seq![a]) == Ok::<Seq<Seq<usize>>, Seq<char>>(seq![seq![a[0], a[2], a[1], a[3]]]),
{
    lemma_perm_0213();
    let p = seq![0usize, 2, 1, 3];
    assert(Seq::new(a.len(), |i: int| a[p[i] as int]) =~= seq![a[0], a[2], a[1], a[3]]);
}

proof fn lemma_transpose_0132(a: Seq<usize>)
    requires
        a.len() == 4,
    ensures
        transpose_rule(seq![0usize, 1, 3, 2], seq![a]) == Ok::<Seq<Seq<usize>>, Seq<char>>(seq![seq![a[0], a[1], a[3], a[2]]]),
{
    lemma_perm_0132();
    let p = seq![0usize, 1, 3, 2];
    assert(Seq::new(a.len(), |i: int| a[p[i] as int]) =~= seq![a[0], a[1], a[3], a[2]]);
}

proof fn lemma_eps_non_negative()
    ensures
        is_non_negative_bits(LN_EPS_BITS),
{
    assert((0x3586_37bdnat / 0x80_0000) % 0x100 == 0x6b);
}

/// One step of a saturating product of positive factors.
proof fn lemma_sat_step(a: usize, x: usize, p: int)
    requires
        p >= 1,
        x >= 1,
        a == if p > usize::MAX { usize::MAX as int } else { p },
    ensures
        sat_mul_usize(a, x) == if p * x > usize::MAX { usize::MAX as int } else { p * x },
{
    assert(p * x >= p) by (nonlinear_arith)
        requires
            p >= 1,
            x >= 1,
    ;
    if p > usize::MAX {
        assert(a * x >= a) by (nonlinear_arith)
            requires
                a >= 1,
                x >= 1,
        ;
    }
}

/// Reshaping `[b, s, h]` to `[b, s, nh, hd]` with `nh * hd == h` keeps the
/// element count, and so does reshaping back.
proof fn lemma_head_reshapes(b: usize, s: usize, h: usize, nh: usize, hd: usize)
    requires
        1 <= b <= isize::MAX,
        1 <= s <= isize::MAX,
        1 <= nh <= isize::MAX,
        1 <= hd <= isize::MAX,
        h <= isize::MAX,
        nh * hd == h,
    ensures
        reshape_rule(seq![b as isize, s as isize, nh as isize, hd as isize], seq![seq![b, s, h]])
            == Ok::<Seq<Seq<usize>>, Seq<char>>(seq![seq![b, s, nh, hd]]),
        reshape_rule(seq![b as isize, s as isize, h as isize], seq![seq![b, s, nh, hd]])
            == Ok::<Seq<Seq<usize>>, Seq<char>>(seq![seq![b, s, h]]),
{
    let t4 = seq![b as isize, s as isize, nh as isize, hd as isize];
    let t3 = seq![b as isize, s as isize, h as isize];
    let a3 = seq![b, s, h];
    let a4 = seq![b, s, nh, hd];
    assert(h >= 1) by (nonlinear_arith)
        requires
            nh >= 1,
            hd >= 1,
            nh * hd == h,
    ;
    reveal_with_fuel(first_invalid_dim, 5);
    reveal_with_fuel(infer_count, 5);
    reveal_with_fuel(known_product, 5);
    reveal_with_fuel(product_sat, 5);
    assert(t4.drop_last().drop_last().drop_last().drop_last() =~= Seq::<isize>::empty());
    assert(t3.drop_last().drop_last().drop_last() =~= Seq::<isize>::empty());
    assert(a3.drop_last().drop_last().drop_last() =~= Seq::<usize>::empty());
    assert(a4.drop_last().drop_last().drop_last().drop_last() =~= Seq::<usize>::empty());
    assert(first_invalid_dim(t4) is None);
    assert(first_invalid_dim(t3) is None);
    assert(infer_count(t4) == 0);
    assert(infer_count(t3) == 0);
    let bs: int = b * s;
    let bsh: int = bs * h;
    assert(bsh == bs * nh * hd) by (nonlinear_arith)
        requires
            bsh == bs * h,
            nh * hd == h,
    ;
    assert(seq![b, s, h].drop_last() =~= seq![b, s]);
    assert(seq![b, s, nh, hd].drop_last() =~= seq![b, s, nh]);
    assert(seq![b, s, nh].drop_last() =~= seq![b, s]);
    assert(seq![b, s].drop_last() =~= seq![b]);
    assert(seq![b].drop_last() =~= Seq::<usize>::empty());
    assert(bs >= 1 && bs * nh >= 1) by (nonlinear_arith)
        requires
            b >= 1,
            s >= 1,
            nh >= 1,
            bs == b * s,
    ;
    lemma_sat_step(1, b, 1);
    lemma_sat_step(product_sat(seq![b]), s, b as int);
    lemma_sat_step(product_sat(seq![b, s]), h, bs);
    lemma_sat_step(product_sat(seq![b, s]), nh, bs);
    lemma_sat_step(product_sat(seq![b, s, nh]), hd, bs * nh);
    assert(t4.drop_last() =~= seq![b as isize, s as isize, nh as isize]);
    assert(t3.drop_last() =~= seq![b as isize, s as isize]);
    assert(seq![b as isize, s as isize, nh as isize].drop_last() =~= seq![b as isize, s as isize]);
    assert(seq![b as isize, s as isize].drop_last() =~= seq![b as isize]);
    assert(known_product(t4) == product_sat(a4));
    assert(known_product(t3) == product_sat(a3));
    assert(product_sat(a4) == product_sat(a3));
    assert(Seq::new(t4.len(), |i: int| t4[i] as usize) =~= a4);
    assert(Seq::new(t3.len(), |i: int| t3[i] as usize) =~= a3);
}

// ------------------------------------------------------- Graph assembly

/// Tensor `t` exists with the given shape and element type.
pub open spec fn tensor_is(g: GraphView, t: TensorId, shape: Seq<usize>, dtype: DType) -> bool {
    g.tensors.contains_key(t@) && g.tensors[t@].shape == shape && g.tensors[t@].dtype == dtype
}

/// `g2` keeps every tensor of `g1` with its shape and element type, and
/// the graph's name, inputs and outputs.
pub open spec fn keeps_tensors(g1: GraphView, g2: GraphView) -> bool {
    &&& forall|t: TensorId, sh: Seq<usize>, d: DType| #[trigger] tensor_is(g1, t, sh, d) ==> tensor_is(g2, t, sh, d)
    &&& g2.name == g1.name
    &&& g2.inputs == g1.inputs
    &&& g2.outputs == g1.outputs
}

/// `g2` keeps every node of `g1` unchanged.
pub open spec fn keeps_nodes(g1: GraphView, g2: GraphView) -> bool {
    forall|n: u32| #[trigger] g1.nodes.contains_key(n) ==> g2.nodes.contains_key(n) && g2.nodes[n] == g1.nodes[n]
}

/// The ids of a list of tensors.
pub open spec fn tensor_ids(ts: Seq<TensorId>) -> Seq<int> {
    ts.map_values(|t: TensorId| t@ as int)
}

/// Node `id` of `g` exists, is named `name`, and reads and writes the
/// tensors with the given ids.
pub open spec fn node_is(g: GraphView, id: int, name: Seq<char>, inputs: Seq<int>, outputs: Seq<int>) -> bool {
    &&& 0 <= id <= u32::MAX
    &&& g.nodes.contains_key(id as u32)
    &&& g.nodes[id as u32].name == name
    &&& tensor_ids(g.nodes[id as u32].inputs) == inputs
    &&& tensor_ids(g.nodes[id as u32].outputs) == outputs
}

/// The operation of node `id` of `g`.
pub open spec fn node_op(g: GraphView, id: int) -> Op {
    g.nodes[id as u32].op
}

/// The name `L<layer><suffix>` of a node of transformer layer `layer`.
pub open spec fn layer_label(layer: nat, suffix: Seq<char>) -> Seq<char> {
    "L"@ + dec_text(layer) + suffix
}

/// The layer normalization every layer and the head use.
pub open spec fn ln_op() -> Op {
    Op::LayerNorm { eps: Float32 { bits: LN_EPS_BITS } }
}

/// Node `id` reshapes to `[batch, seq_len, num_heads, head_dim]`.
pub open spec fn reshapes_to_heads(c: ViTConfig, g: GraphView, id: int) -> bool {
    node_op(g, id) matches Op::Reshape { target } && target@ == seq![c.batch_size as isize,
        ((c.spec_num_patches() + 1) as usize) as isize, c.num_heads as isize, (c.hidden_dim / c.num_heads) as isize]
}

/// Node `id` transposes with the permutation `p`.
pub open spec fn transposes(g: GraphView, id: int, p: Seq<usize>) -> bool {
    node_op(g, id) matches Op::Transpose { perm } && perm@ == p
}

/// The first nine nodes of transformer layer `l` in `g`, reading the layer
/// input `x`, with node ids from `nb` and tensor ids from `tb`: layer
/// normalization, QKV projection, split, and the per-head reshape and
/// transpose of the queries, keys and values.
pub open spec fn attn_inputs_built(c: ViTConfig, g: GraphView, l: nat, x: int, nb: int, tb: int) -> bool {
    &&& node_is(g, nb, layer_label(l, ".attn.ln"@), seq![x], seq![tb])
    &&& node_op(g, nb) == ln_op()
    &&& node_is(g, nb + 1, layer_label(l, ".attn.qkv"@), seq![tb], seq![tb + 1])
    &&& node_op(g, nb + 1) == (Op::Linear { out_features: (3 * c.hidden_dim) as usize, bias: true })
    &&& node_is(g, nb + 2, layer_label(l, ".attn.split"@), seq![tb + 1], seq![tb + 2, tb + 3, tb + 4])
    &&& node_op(g, nb + 2) matches Op::Split { dim, sections } && dim == 2
        && sections@ == seq![c.hidden_dim, c.hidden_dim, c.hidden_dim]
    &&& node_is(g, nb + 3, layer_label(l, ".attn.q.reshape"@), seq![tb + 2], seq![tb + 5])
    &&& reshapes_to_heads(c, g, nb + 3)
    &&& node_is(g, nb + 4, layer_label(l, ".attn.k.reshape"@), seq![tb + 3], seq![tb + 6])
    &&& reshapes_to_heads(c, g, nb + 4)
    &&& node_is(g, nb + 5, layer_label(l, ".attn.v.reshape"@), seq![tb + 4], seq![tb + 7])
    &&& reshapes_to_heads(c, g, nb + 5)
    &&& node_is(g, nb + 6, layer_label(l, ".attn.q.transpose"@), seq![tb + 5], seq![tb + 8])
    &&& transposes(g, nb + 6, seq![0usize, 2, 1, 3])
    &&& node_is(g, nb + 7, layer_label(l, ".attn.k.transpose"@), seq![tb + 6], seq![tb + 9])
    &&& transposes(g, nb + 7, seq![0usize, 2, 1, 3])
    &&& node_is(g, nb + 8, layer_label(l, ".attn.v.transpose"@), seq![tb + 7], seq![tb + 10])
    &&& transposes(g, nb + 8, seq![0usize, 2, 1, 3])
}

/// The next seven nodes of transformer layer `l` in `g`, reading the
/// per-head queries `q`, keys `k` and values `v`: scaled dot-product
/// attention with scale `scale`, back to the hidden layout.
pub open spec fn attn_core_built(c: ViTConfig, scale: Float32, g: GraphView, l: nat, q: int, k: int, v: int, nb: int, tb: int) -> bool {
    &&& node_is(g, nb, layer_label(l, ".attn.k_t"@), seq![k], seq![tb])
    &&& transposes(g, nb, seq![0usize, 1, 3, 2])
    &&& node_is(g, nb + 1, layer_label(l, ".attn.scores"@), seq![q, tb], seq![tb + 1])
    &&& node_op(g, nb + 1) == Op::MatMul
    &&& node_is(g, nb + 2, layer_label(l, ".attn.scale"@), seq![tb + 1], seq![tb + 2])
    &&& node_op(g, nb + 2) == (Op::ScalarMul { factor: scale })
    &&& node_is(g, nb + 3, layer_label(l, ".attn.softmax"@), seq![tb + 2], seq![tb + 3])
    &&& node_op(g, nb + 3) == (Op::Softmax { dim: -1isize })
    &&& node_is(g, nb + 4, layer_label(l, ".attn.context"@), seq![tb + 3, v], seq![tb + 4])
    &&& node_op(g, nb + 4) == Op::MatMul
    &&& node_is(g, nb + 5, layer_label(l, ".attn.context_transpose"@), seq![tb + 4], seq![tb + 5])
    &&& transposes(g, nb + 5, seq![0usize, 2, 1, 3])
    &&& node_is(g, nb + 6, layer_label(l, ".attn.context_reshape"@), seq![tb + 5], seq![tb + 6])
    &&& node_op(g, nb + 6) matches Op::Reshape { target } && target@ == seq![c.batch_size as isize,
        ((c.spec_num_patches() + 1) as usize) as isize, c.hidden_dim as isize]
}

/// The last seven nodes of transformer layer `l` in `g`, reading the layer
/// input `x` and the attention context `cf`: output projection, residual
/// addition, and the FFN block with its residual addition.
pub open spec fn layer_tail_built(c: ViTConfig, g: GraphView, l: nat, x: int, cf: int, nb: int, tb: int) -> bool {
    &&& node_is(g, nb, layer_label(l, ".attn.out_proj"@), seq![cf], seq![tb])
    &&& node_op(g, nb) == (Op::Linear { out_features: c.hidden_dim, bias: true })
    &&& node_is(g, nb + 1, layer_label(l, ".attn.residual"@), seq![x, tb], seq![tb + 1])
    &&& node_op(g, nb + 1) == Op::Add
    &&& node_is(g, nb + 2, layer_label(l, ".ffn.ln"@), seq![tb + 1], seq![tb + 2])
    &&& node_op(g, nb + 2) == ln_op()
    &&& node_is(g, nb + 3, layer_label(l, ".ffn.up"@), seq![tb + 2], seq![tb + 3])
    &&& node_op(g, nb + 3) == (Op::Linear { out_features: c.mlp_dim, bias: true })
    &&& node_is(g, nb + 4, layer_label(l, ".ffn.gelu"@), seq![tb + 3], seq![tb + 4])
    &&& node_op(g, nb + 4) == Op::Gelu
    &&& node_is(g, nb + 5, layer_label(l, ".ffn.down"@), seq![tb + 4], seq![tb + 5])
    &&& node_op(g, nb + 5) == (Op::Linear { out_features: c.hidden_dim, bias: true })
    &&& node_is(g, nb + 6, layer_label(l, ".ffn.residual"@), seq![tb + 1, tb + 5], seq![tb + 6])
    &&& node_op(g, nb + 6) == Op::Add
}

/// The 23 nodes of transformer layer `l` in `g`, reading tensor `x`, with
/// node ids from `nb` and tensor ids from `tb`; the layer's output is
/// tensor `tb + 24`.
pub open spec fn layer_built_at(c: ViTConfig, scale: Float32, g: GraphView, l: nat, x: int, nb: int, tb: int) -> bool {
    &&& attn_inputs_built(c, g, l, x, nb, tb)
    &&& attn_core_built(c, scale, g, l, tb + 8, tb + 9, tb + 10, nb + 9, tb + 11)
    &&& layer_tail_built(c, g, l, x, tb + 17, nb + 16, tb + 18)
}

/// Transformer layer `l` of a ViT graph: its nodes take the ids from
/// `1 + 23 l`, its tensors from `2 + 25 l`, and it reads tensor `1 + 25 l`.
pub open spec fn layer_built(c: ViTConfig, scale: Float32, g: GraphView, l: nat) -> bool {
    layer_built_at(c, scale, g, l, (1 + 25 * l) as int, (1 + 23 * l) as int, (2 + 25 * l) as int)
}

proof fn lemma_all_present(g: GraphView, ids: Seq<TensorId>)
    requires
        forall|i: int| 0 <= i < ids.len() ==> g.tensors.contains_key(#[trigger] ids[i]@),
    ensures
        first_missing(g, ids) is None,
    decreases ids.len(),
{
    if ids.len() > 0 {
        assert forall|i: int| 0 <= i < ids.drop_last().len() implies g.tensors.contains_key(#[trigger] ids.drop_last()[i]@) by {
            assert(ids.drop_last()[i] == ids[i]);
        }
        lemma_all_present(g, ids.drop_last());
        assert(g.tensors.contains_key(ids[ids.len() - 1]@));
    }
}

fn one_id(a: TensorId) -> (r: Vec<TensorId>)
    ensures
        r@ == seq![a],
{
    let mut v: Vec<TensorId> = Vec::new();
    v.push(a);
    proof {
        assert(v@ =~= seq![a]);
    }
    v
}

fn two_ids(a: TensorId, b: TensorId) -> (r: Vec<TensorId>)
    ensures
        r@ == seq![a, b],
{
    let mut v: Vec<TensorId> = Vec::new();
    v.push(a);
    v.push(b);
    proof {
        assert(v@ =~= seq![a, b]);
    }
    v
}

fn dims4(a: usize, b: usize, c: usize, d: usize) -> (r: Vec<usize>)
    ensures
        r@ == seq![a, b, c, d],
{
    let mut v: Vec<usize> = Vec::new();
    v.push(a);
    v.push(b);
    v.push(c);
    v.push(d);
    proof {
        assert(v@ =~= seq![a, b, c, d]);
    }
    v
}

fn target4(a: usize, b: usize, c: usize, d: usize) -> (r: Vec<isize>)
    ensures
        r@ == seq![a as isize, b as isize, c as isize, d as isize],
{
    let mut v: Vec<isize> = Vec::new();
    v.push(a as isize);
    v.push(b as isize);
    v.push(c as isize);
    v.push(d as isize);
    proof {
        assert(v@ =~= seq![a as isize, b as isize, c as isize, d as isize]);
    }
    v
}

fn target3(a: usize, b: usize, c: usize) -> (r: Vec<isize>)
    ensures
        r@ == seq![a as isize, b as isize, c as isize],
{
    let mut v: Vec<isize> = Vec::new();
    v.push(a as isize);
    v.push(b as isize);
    v.push(c as isize);
    proof {
        assert(v@ =~= seq![a as isize, b as isize, c as isize]);
    }
    v
}

fn sections3(h: usize) -> (r: Vec<usize>)
    ensures
        r@ == seq![h, h, h],
{
    let mut v: Vec<usize> = Vec::new();
    v.push(h);
    v.push(h);
    v.push(h);
    proof {
        assert(v@ =~= seq![h, h, h]);
    }
    v
}

/// The name of a node of layer `layer`: `L<layer><suffix>`.
fn layer_name(layer: usize, suffix: &str) -> (r: String)
    ensures
        r@ == "L"@ + dec_text(layer as nat) + suffix@,
{
    let mut m = owned("L");
    push_dec(&mut m, layer as u64);
    m.append(suffix);
    m
}

/// Add a single-output node reading `inputs`.
fn add1(g: &mut Graph, name: &str, op: Op, inputs: &[TensorId]) -> (r: Result<TensorId>)
    requires
        old(g).wf(),
        old(g)@.next_node_id < u32::MAX,
        old(g)@.next_tensor_id < u32::MAX,
        op_outputs(op) == 1,
        inputs@.len() > 0,
        first_missing(old(g)@, inputs@) is None,
        shapes_fit(op, shapes_of(old(g)@, inputs@)),
    ensures
        final(g).wf(),
        match r {
            Ok(t) => infer_rule(op, shapes_of(old(g)@, inputs@)) is Ok
                && tensor_is(final(g)@, t, infer_rule(op, shapes_of(old(g)@, inputs@))->Ok_0[0],
                    old(g)@.tensors[inputs@[0]@].dtype)
                && final(g)@.next_node_id == old(g)@.next_node_id + 1
                && final(g)@.next_tensor_id == old(g)@.next_tensor_id + 1
                && final(g)@.nodes.len() == old(g)@.nodes.len() + 1
                && keeps_tensors(old(g)@, final(g)@)
                && final(g)@.nodes == old(g)@.nodes.insert(old(g)@.next_node_id, final(g)@.nodes[old(g)@.next_node_id])
                && t@ == old(g)@.next_tensor_id
                && node_is(final(g)@, old(g)@.next_node_id as int, name@, tensor_ids(inputs@), seq![t@ as int])
                && node_op(final(g)@, old(g)@.next_node_id as int) == op
                && (built_by_nodes(old(g)@) ==> built_by_nodes(final(g)@)),
            Err(e) => e is ShapeMismatch && infer_rule(op, shapes_of(old(g)@, inputs@)) is Err,
        },
{
    broadcast use crate::graph::group_graph_model;
    let ghost g1 = g@;
    proof {
        assert(g1.nodes.dom() =~= g.nodes@.dom());
    }
    let outs = match g.node(name, op, inputs) {
        Ok(v) => v,
        Err(e) => return Err(e),
    };
    proof {
        let g2 = g@;
        let sh = infer_rule(op, shapes_of(g1, inputs@))->Ok_0;
        reveal(infer_rule);
        assert(sh.len() == 1);
        lemma_none_missing(g1, inputs@, 0);
        assert(outs@[0]@ == g1.next_tensor_id + 0);
        assert(tensor_ids(outs@) =~= seq![outs@[0]@ as int]);
        assert(!g1.nodes.contains_key(g1.next_node_id));
        assert(g2.nodes.dom() =~= g1.nodes.dom().insert(g1.next_node_id));
        assert forall|t: TensorId, shp: Seq<usize>, d: DType| #[trigger] tensor_is(g1, t, shp, d) implies tensor_is(g2, t, shp, d) by {
            assert(g1.tensors.contains_key(t@));
            assert(g2.tensors.dom().contains(t@));
        }
    }
    Ok(outs[0])
}

proof fn lemma_keeps_nodes_refl(g: GraphView)
    ensures
        keeps_nodes(g, g),
{
}

proof fn lemma_keeps_nodes_step(g0: GraphView, g1: GraphView, g2: GraphView)
    requires
        keeps_nodes(g0, g1),
        g1.wf(),
        g2.nodes == g1.nodes.insert(g1.next_node_id, g2.nodes[g1.next_node_id]),
    ensures
        keeps_nodes(g0, g2),
        keeps_nodes(g1, g2),
{
    assert forall|n: u32| #[trigger] g1.nodes.contains_key(n) implies g2.nodes.contains_key(n) && g2.nodes[n] == g1.nodes[n] by {
        assert(n < g1.next_node_id);
    }
}

proof fn lemma_keeps_nodes_trans(g1: GraphView, g2: GraphView, g3: GraphView)
    requires
        keeps_nodes(g1, g2),
        keeps_nodes(g2, g3),
    ensures
        keeps_nodes(g1, g3),
{
}

proof fn lemma_keeps_refl(g: GraphView)
    ensures
        keeps_tensors(g, g),
{
}

proof fn lemma_keeps_trans(g1: GraphView, g2: GraphView, g3: GraphView)
    requires
        keeps_tensors(g1, g2),
        keeps_tensors(g2, g3),
    ensures
        keeps_tensors(g1, g3),
{
    assert forall|t: TensorId, sh: Seq<usize>, d: DType| #[trigger] tensor_is(g1, t, sh, d) implies tensor_is(g3, t, sh, d) by {
        assert(tensor_is(g2, t, sh, d));
    }
}

proof fn lemma_split_qkv(b: usize, s: usize, h: usize)
    requires
        3 * h <= usize::MAX,
    ensures
        split_rule(2, seq![h, h, h], seq![seq![b, s, (3 * h) as usize]]) == Ok::<Seq<Seq<usize>>, Seq<char>>(
            seq![seq![b, s, h], seq![b, s, h], seq![b, s, h]]),
{
    let sec = seq![h, h, h];
    let a = seq![b, s, (3 * h) as usize];
    reveal_with_fuel(sum_sat, 4);
    assert(sec.drop_last() =~= seq![h, h]);
    assert(seq![h, h].drop_last() =~= seq![h]);
    assert(seq![h].drop_last() =~= Seq::<usize>::empty());
    assert(sum_sat(sec) == 3 * h);
    assert(Seq::new(sec.len(), |i: int| a.update(2, sec[i])) =~= seq![seq![b, s, h], seq![b, s, h], seq![b, s, h]]) by {
        assert(a.update(2, h) =~= seq![b, s, h]);
    }
}

/// The shape of the hidden activations: `[batch, seq_len, hidden_dim]`.
pub open spec fn hidden_shape(c: ViTConfig) -> Seq<usize> {
    seq![c.batch_size, (c.spec_num_patches() + 1) as usize, c.hidden_dim]
}

/// The per-head layout of queries, keys and values:
/// `[batch, num_heads, seq_len, head_dim]`.
pub open spec fn head_shape(c: ViTConfig) -> Seq<usize> {
    seq![c.batch_size, c.num_heads, (c.spec_num_patches() + 1) as usize, (c.hidden_dim / c.num_heads) as usize]
}

/// The sizes keep every computation of the builder within `usize` and
/// every id within `u32`.
pub open spec fn vit_fits(c: ViTConfig) -> bool {
    &&& c.spec_num_patches() + 1 <= usize::MAX
    &&& 3 * c.hidden_dim <= usize::MAX
    &&& 25 * c.num_layers + 4 <= u32::MAX
}

/// Batch size and sequence length are representable as reshape target
/// dimensions (`isize`).
pub open spec fn vit_reshapable(c: ViTConfig) -> bool {
    c.batch_size <= isize::MAX && c.spec_num_patches() + 1 <= isize::MAX
}

/// Add a node with exactly three outputs reading `inputs`.
fn add3(g: &mut Graph, name: &str, op: Op, inputs: &[TensorId]) -> (r: Result<(TensorId, TensorId, TensorId)>)
    requires
        old(g).wf(),
        old(g)@.next_node_id < u32::MAX,
        old(g)@.next_tensor_id + 3 <= u32::MAX,
        op_outputs(op) == 3,
        inputs@.len() > 0,
        first_missing(old(g)@, inputs@) is None,
        shapes_fit(op, shapes_of(old(g)@, inputs@)),
    ensures
        final(g).wf(),
        match r {
            Ok((t0, t1, t2)) => infer_rule(op, shapes_of(old(g)@, inputs@)) is Ok
                && tensor_is(final(g)@, t0, infer_rule(op, shapes_of(old(g)@, inputs@))->Ok_0[0],
                    old(g)@.tensors[inputs@[0]@].dtype)
                && tensor_is(final(g)@, t1, infer_rule(op, shapes_of(old(g)@, inputs@))->Ok_0[1],
                    old(g)@.tensors[inputs@[0]@].dtype)
                && tensor_is(final(g)@, t2, infer_rule(op, shapes_of(old(g)@, inputs@))->Ok_0[2],
                    old(g)@.tensors[inputs@[0]@].dtype)
                && final(g)@.next_node_id == old(g)@.next_node_id + 1
                && final(g)@.next_tensor_id == old(g)@.next_tensor_id + 3
                && final(g)@.nodes.len() == old(g)@.nodes.len() + 1
                && keeps_tensors(old(g)@, final(g)@)
                && final(g)@.nodes == old(g)@.nodes.insert(old(g)@.next_node_id, final(g)@.nodes[old(g)@.next_node_id])
                && t0@ == old(g)@.next_tensor_id && t1@ == t0@ + 1 && t2@ == t0@ + 2
                && node_is(final(g)@, old(g)@.next_node_id as int, name@, tensor_ids(inputs@),
                    seq![t0@ as int, t0@ + 1, t0@ + 2])
                && node_op(final(g)@, old(g)@.next_node_id as int) == op
                && (built_by_nodes(old(g)@) ==> built_by_nodes(final(g)@)),
            Err(e) => e is ShapeMismatch && infer_rule(op, shapes_of(old(g)@, inputs@)) is Err,
        },
{
    broadcast use crate::graph::group_graph_model;
    let ghost g1 = g@;
    proof {
        assert(g1.nodes.dom() =~= g.nodes@.dom());
    }
    let outs = match g.node(name, op, inputs) {
        Ok(v) => v,
        Err(e) => return Err(e),
    };
    proof {
        let g2 = g@;
        let sh = infer_rule(op, shapes_of(g1, inputs@))->Ok_0;
        reveal(infer_rule);
        assert(sh.len() == 3);
        assert(tensor_ids(outs@) =~= seq![outs@[0]@ as int, outs@[0]@ + 1, outs@[0]@ + 2]);
        lemma_none_missing(g1, inputs@, 0);
        assert(outs@[0]@ == g1.next_tensor_id + 0);
        assert(outs@[1]@ == g1.next_tensor_id + 1);
        assert(outs@[2]@ == g1.next_tensor_id + 2);
        assert(!g1.nodes.contains_key(g1.next_node_id));
        assert(g2.nodes.dom() =~= g1.nodes.dom().insert(g1.next_node_id));
        assert forall|t: TensorId, shp: Seq<usize>, d: DType| #[trigger] tensor_is(g1, t, shp, d) implies tensor_is(g2, t, shp, d) by {
            assert(g1.tensors.contains_key(t@));
            assert(g2.tensors.dom().contains(t@));
        }
    }
    Ok((outs[0], outs[1], outs[2]))
}

/// Layer normalization, QKV projection, split and per-head layout of the
/// queries, keys and values: 9 nodes, 11 tensors.
#[verifier::rlimit(90)]
fn build_attention_inputs(g: &mut Graph, layer: usize, x: TensorId, config: &ViTConfig) -> (r: Result<(TensorId, TensorId, TensorId)>)
    requires
        old(g).wf(),
        config_error(*config) is None,
        vit_fits(*config),
        old(g)@.next_node_id + 9 <= u32::MAX,
        old(g)@.next_tensor_id + 11 <= u32::MAX,
        old(g)@.tensors.contains_key(x@),
    ensures
        final(g).wf(),
        match r {
            Ok((q, k, v)) => final(g)@.next_node_id == old(g)@.next_node_id + 9
                && final(g)@.next_tensor_id == old(g)@.next_tensor_id + 11
                && final(g)@.nodes.len() == old(g)@.nodes.len() + 9
                && keeps_tensors(old(g)@, final(g)@)
                && keeps_nodes(old(g)@, final(g)@)
                && (built_by_nodes(old(g)@) ==> built_by_nodes(final(g)@))
                && attn_inputs_built(*config, final(g)@, layer as nat, x@ as int, old(g)@.next_node_id as int, old(g)@.next_tensor_id as int)
                && q@ == old(g)@.next_tensor_id + 8 && k@ == old(g)@.next_tensor_id + 9 && v@ == old(g)@.next_tensor_id + 10
                && tensor_is(final(g)@, q, final(g)@.tensors[q@].shape, old(g)@.tensors[x@].dtype)
                && tensor_is(final(g)@, k, final(g)@.tensors[k@].shape, old(g)@.tensors[x@].dtype)
                && tensor_is(final(g)@, v, final(g)@.tensors[v@].shape, old(g)@.tensors[x@].dtype)
                && (vit_reshapable(*config) && old(g)@.tensors[x@].shape == hidden_shape(*config) ==> final(g)@.tensors[q@].shape == head_shape(*config) && final(g)@.tensors[k@].shape == head_shape(*config) && final(g)@.tensors[v@].shape == head_shape(*config)),
            Err(e) => e is ShapeMismatch && !(vit_reshapable(*config) && old(g)@.tensors[x@].shape == hidden_shape(*config)),
        },
{
    let ghost g0 = g@;
    let ghost d = g0.tensors[x@].dtype;
    let ghost ok = vit_reshapable(*config) && g0.tensors[x@].shape == hidden_shape(*config);
    let ghost nb = g0.next_node_id as int;
    let ghost tb = g0.next_tensor_id as int;
    let hd = config.head_dim();
    let b = config.batch_size;
    let s = config.seq_len();
    let h = config.hidden_dim;
    let nh = config.num_heads;
    let h3 = 3 * config.hidden_dim;
    proof {
        lemma_keeps_refl(g0);
        lemma_keeps_nodes_refl(g0);
        assert(built_by_nodes(g0) ==> built_by_nodes(g@));
        assert(nh * hd == h) by (nonlinear_arith)
            requires
                hd == h / nh,
                h % nh == 0,
                nh > 0,
        ;
        assert(hd >= 1 && hd <= h && nh <= h) by (nonlinear_arith)
            requires
                nh * hd == h,
                nh >= 1,
                h >= 1,
        ;
            assert(tensor_is(g0, x, g0.tensors[x@].shape, d));
        if ok {
                assert(tensor_is(g0, x, seq![b, s, h], d));
        }
    }
        let ghost gp = g@;
        let ins = one_id(x);
        let op = Op::LayerNorm { eps: Float32::from_bits(LN_EPS_BITS) };
        let ghost op_s = op;
        proof {
            assert(g@.next_node_id == g0.next_node_id + 0 && g@.next_tensor_id == g0.next_tensor_id + 0);
            assert(g@.nodes.len() == g0.nodes.len() + 0);
            assert(gp.tensors.contains_key(x@));
            assert(gp.tensors[x@].dtype == d);
            lemma_all_present(gp, ins@);
            assert(tensor_ids(ins@) =~= seq![x@ as int]);
            assert(ok ==> infer_rule(op_s, shapes_of(gp, ins@)) == Ok::<Seq<Seq<usize>>, Seq<char>>(seq![seq![b, s, h]])) by {
                if ok {
                    assert(tensor_is(gp, x, seq![b, s, h], d));
                    assert(shapes_of(gp, ins@) =~= seq![seq![b, s, h]]);
                    reveal(infer_rule);
                    lemma_eps_non_negative();
                }
            }
        }
        let nm = layer_name(layer, ".attn.ln");
        let ln1 = match add1(g, nm.as_str(), op, ins.as_slice()) {
            Ok(t) => t,
            Err(e) => return Err(e),
        };
        proof {
            lemma_keeps_trans(g0, gp, g@);
            lemma_keeps_nodes_step(g0, gp, g@);
            assert(tensor_is(g@, ln1, infer_rule(op_s, shapes_of(gp, ins@))->Ok_0[0], d));
            assert(ok ==> tensor_is(g@, ln1, seq![b, s, h], d));
            assert(node_is(g@, nb + 0, layer_label(layer as nat, ".attn.ln"@), seq![x@ as int], seq![tb + 0]));
            assert(built_by_nodes(g0) ==> built_by_nodes(g@));
            assert(node_op(g@, nb + 0) == ln_op());
        }
        let ghost g_0 = g@;
        let ghost gp = g@;
        let ins = one_id(ln1);
        let op = Op::Linear { out_features: h3, bias: true };
        let ghost op_s = op;
        proof {
            assert(g@.next_node_id == g0.next_node_id + 1 && g@.next_tensor_id == g0.next_tensor_id + 1);
            assert(g@.nodes.len() == g0.nodes.len() + 1);
            assert(gp.tensors.contains_key(ln1@));
            assert(gp.tensors[ln1@].dtype == d);
            lemma_all_present(gp, ins@);
            assert(tensor_ids(ins@) =~= seq![tb + 0]);
            assert(ok ==> infer_rule(op_s, shapes_of(gp, ins@)) == Ok::<Seq<Seq<usize>>, Seq<char>>(seq![seq![b, s, h3]])) by {
                if ok {
                    assert(tensor_is(gp, ln1, seq![b, s, h], d));
                    assert(shapes_of(gp, ins@) =~= seq![seq![b, s, h]]);
                    reveal(infer_rule);
                    assert(seq![b, s, h].update(2, h3) =~= seq![b, s, h3]);
                }
            }
        }
        let nm = layer_name(layer, ".attn.qkv");
        let qkv = match add1(g, nm.as_str(), op, ins.as_slice()) {
            Ok(t) => t,
            Err(e) => return Err(e),
        };
        proof {
            lemma_keeps_trans(g0, gp, g@);
            lemma_keeps_nodes_step(g0, gp, g@);
            assert(tensor_is(g@, qkv, infer_rule(op_s, shapes_of(gp, ins@))->Ok_0[0], d));
            assert(ok ==> tensor_is(g@, qkv, seq![b, s, h3], d));
            assert(node_is(g@, nb + 1, layer_label(layer as nat, ".attn.qkv"@), seq![tb + 0], seq![tb + 1]));
            assert(built_by_nodes(g0) ==> built_by_nodes(g@));
            assert(node_op(g@, nb + 1) == (Op::Linear { out_features: (3 * config.hidden_dim) as usize, bias: true }));
        }
        let ghost g_1 = g@;
        let ghost gp = g@;
        let ins = one_id(qkv);
        let op = Op::Split { dim: 2, sections: sections3(h) };
        let ghost op_s = op;
        proof {
            assert(g@.next_node_id == g0.next_node_id + 2 && g@.next_tensor_id == g0.next_tensor_id + 2);
            assert(g@.nodes.len() == g0.nodes.len() + 2);
            assert(gp.tensors.contains_key(qkv@));
            assert(gp.tensors[qkv@].dtype == d);
            lemma_all_present(gp, ins@);
            assert(tensor_ids(ins@) =~= seq![tb + 1]);
            assert(ok ==> infer_rule(op_s, shapes_of(gp, ins@)) == Ok::<Seq<Seq<usize>>, Seq<char>>(seq![seq![b, s, h], seq![b, s, h], seq![b, s, h]])) by {
                if ok {
                    assert(tensor_is(gp, qkv, seq![b, s, h3], d));
                    assert(shapes_of(gp, ins@) =~= seq![seq![b, s, h3]]);
                    reveal(infer_rule);
                    lemma_split_qkv(b, s, h);
                }
            }
        }
        let nm = layer_name(layer, ".attn.split");
        let (q_flat, k_flat, v_flat) = match add3(g, nm.as_str(), op, ins.as_slice()) {
            Ok(t) => t,
            Err(e) => return Err(e),
        };
        proof {
            lemma_keeps_trans(g0, gp, g@);
            lemma_keeps_nodes_step(g0, gp, g@);
            assert(ok ==> tensor_is(g@, q_flat, seq![b, s, h], d));
            assert(ok ==> tensor_is(g@, k_flat, seq![b, s, h], d));
            assert(ok ==> tensor_is(g@, v_flat, seq![b, s, h], d));
            assert(node_is(g@, nb + 2, layer_label(layer as nat, ".attn.split"@), seq![tb + 1], seq![tb + 2, tb + 3, tb + 4]));
            assert(built_by_nodes(g0) ==> built_by_nodes(g@));
            assert(node_op(g@, nb + 2) matches Op::Split { dim, sections } && dim == 2 && sections@ == seq![config.hidden_dim, config.hidden_dim, config.hidden_dim]);
        }
        let ghost g_2 = g@;
        let ghost gp = g@;
        let ins = one_id(q_flat);
        let op = Op::Reshape { target: target4(b, s, nh, hd) };
        let ghost op_s = op;
        proof {
            assert(g@.next_node_id == g0.next_node_id + 3 && g@.next_tensor_id == g0.next_tensor_id + 5);
            assert(g@.nodes.len() == g0.nodes.len() + 3);
            assert(gp.tensors.contains_key(q_flat@));
            assert(gp.tensors[q_flat@].dtype == d);
            lemma_all_present(gp, ins@);
            assert(tensor_ids(ins@) =~= seq![tb + 2]);
            assert(ok ==> infer_rule(op_s, shapes_of(gp, ins@)) == Ok::<Seq<Seq<usize>>, Seq<char>>(seq![seq![b, s, nh, hd]])) by {
                if ok {
                    assert(tensor_is(gp, q_flat, seq![b, s, h], d));
                    assert(shapes_of(gp, ins@) =~= seq![seq![b, s, h]]);
                    reveal(infer_rule);
                    lemma_head_reshapes(b, s, h, nh, hd);
                }
            }
        }
        let nm = layer_name(layer, ".attn.q.reshape");
        let q_r = match add1(g, nm.as_str(), op, ins.as_slice()) {
            Ok(t) => t,
            Err(e) => return Err(e),
        };
        proof {
            lemma_keeps_trans(g0, gp, g@);
            lemma_keeps_nodes_step(g0, gp, g@);
            assert(tensor_is(g@, q_r, infer_rule(op_s, shapes_of(gp, ins@))->Ok_0[0], d));
            assert(ok ==> tensor_is(g@, q_r, seq![b, s, nh, hd], d));
            assert(node_is(g@, nb + 3, layer_label(layer as nat, ".attn.q.reshape"@), seq![tb + 2], seq![tb + 5]));
            assert(built_by_nodes(g0) ==> built_by_nodes(g@));
            assert(reshapes_to_heads(*config, g@, nb + 3));
        }
        let ghost g_3 = g@;
        let ghost gp = g@;
        let ins = one_id(k_flat);
        let op = Op::Reshape { target: target4(b, s, nh, hd) };
        let ghost op_s = op;
        proof {
            assert(g@.next_node_id == g0.next_node_id + 4 && g@.next_tensor_id == g0.next_tensor_id + 6);
            assert(g@.nodes.len() == g0.nodes.len() + 4);
            assert(gp.tensors.contains_key(k_flat@));
            assert(gp.tensors[k_flat@].dtype == d);
            lemma_all_present(gp, ins@);
            assert(tensor_ids(ins@) =~= seq![tb + 3]);
            assert(ok ==> infer_rule(op_s, shapes_of(gp, ins@)) == Ok::<Seq<Seq<usize>>, Seq<char>>(seq![seq![b, s, nh, hd]])) by {
                if ok {
                    assert(tensor_is(gp, k_flat, seq![b, s, h], d));
                    assert(shapes_of(gp, ins@) =~= seq![seq![b, s, h]]);
                    reveal(infer_rule);
                    lemma_head_reshapes(b, s, h, nh, hd);
                }
            }
        }
        let nm = layer_name(layer, ".attn.k.reshape");
        let k_r = match add1(g, nm.as_str(), op, ins.as_slice()) {
            Ok(t) => t,
            Err(e) => return Err(e),
        };
        proof {
            lemma_keeps_trans(g0, gp, g@);
            lemma_keeps_nodes_step(g0, gp, g@);
            assert(tensor_is(g@, k_r, infer_rule(op_s, shapes_of(gp, ins@))->Ok_0[0], d));
            assert(ok ==> tensor_is(g@, k_r, seq![b, s, nh, hd], d));
            assert(node_is(g@, nb + 4, layer_label(layer as nat, ".attn.k.reshape"@), seq![tb + 3], seq![tb + 6]));
            assert(built_by_nodes(g0) ==> built_by_nodes(g@));
            assert(reshapes_to_heads(*config, g@, nb + 4));
        }
        let ghost g_4 = g@;
        let ghost gp = g@;
        let ins = one_id(v_flat);
        let op = Op::Reshape { target: target4(b, s, nh, hd) };
        let ghost op_s = op;
        proof {
            assert(g@.next_node_id == g0.next_node_id + 5 && g@.next_tensor_id == g0.next_tensor_id + 7);
            assert(g@.nodes.len() == g0.nodes.len() + 5);
            assert(gp.tensors.contains_key(v_flat@));
            assert(gp.tensors[v_flat@].dtype == d);
            lemma_all_present(gp, ins@);
            assert(tensor_ids(ins@) =~= seq![tb + 4]);
            assert(ok ==> infer_rule(op_s, shapes_of(gp, ins@)) == Ok::<Seq<Seq<usize>>, Seq<char>>(seq![seq![b, s, nh, hd]])) by {
                if ok {
                    assert(tensor_is(gp, v_flat, seq![b, s, h], d));
                    assert(shapes_of(gp, ins@) =~= seq![seq![b, s, h]]);
                    reveal(infer_rule);
                    lemma_head_reshapes(b, s, h, nh, hd);
                }
            }
        }
        let nm = layer_name(layer, ".attn.v.reshape");
        let v_r = match add1(g, nm.as_str(), op, ins.as_slice()) {
            Ok(t) => t,
            Err(e) => return Err(e),
        };
        proof {
            lemma_keeps_trans(g0, gp, g@);
            lemma_keeps_nodes_step(g0, gp, g@);
            assert(tensor_is(g@, v_r, infer_rule(op_s, shapes_of(gp, ins@))->Ok_0[0], d));
            assert(ok ==> tensor_is(g@, v_r, seq![b, s, nh, hd], d));
            assert(node_is(g@, nb + 5, layer_label(layer as nat, ".attn.v.reshape"@), seq![tb + 4], seq![tb + 7]));
            assert(built_by_nodes(g0) ==> built_by_nodes(g@));
            assert(reshapes_to_heads(*config, g@, nb + 5));
        }
        let ghost g_5 = g@;
        let ghost gp = g@;
        let ins = one_id(q_r);
        let op = Op::Transpose { perm: dims4(0, 2, 1, 3) };
        let ghost op_s = op;
        proof {
            assert(g@.next_node_id == g0.next_node_id + 6 && g@.next_tensor_id == g0.next_tensor_id + 8);
            assert(g@.nodes.len() == g0.nodes.len() + 6);
            assert(gp.tensors.contains_key(q_r@));
            assert(gp.tensors[q_r@].dtype == d);
            lemma_all_present(gp, ins@);
            assert(tensor_ids(ins@) =~= seq![tb + 5]);
            assert(ok ==> infer_rule(op_s, shapes_of(gp, ins@)) == Ok::<Seq<Seq<usize>>, Seq<char>>(seq![seq![b, nh, s, hd]])) by {
                if ok {
                    assert(tensor_is(gp, q_r, seq![b, s, nh, hd], d));
                    assert(shapes_of(gp, ins@) =~= seq![seq![b, s, nh, hd]]);
                    reveal(infer_rule);
                    lemma_transpose_0213(seq![b, s, nh, hd]);
                }
            }
        }
        let nm = layer_name(layer, ".attn.q.transpose");
        let q = match add1(g, nm.as_str(), op, ins.as_slice()) {
            Ok(t) => t,
            Err(e) => return Err(e),
        };
        proof {
            lemma_keeps_trans(g0, gp, g@);
            lemma_keeps_nodes_step(g0, gp, g@);
            assert(tensor_is(g@, q, infer_rule(op_s, shapes_of(gp, ins@))->Ok_0[0], d));
            assert(ok ==> tensor_is(g@, q, seq![b, nh, s, hd], d));
            assert(node_is(g@, nb + 6, layer_label(layer as nat, ".attn.q.transpose"@), seq![tb + 5], seq![tb + 8]));
            assert(built_by_nodes(g0) ==> built_by_nodes(g@));
            assert(transposes(g@, nb + 6, seq![0usize, 2, 1, 3]));
        }
        let ghost g_6 = g@;
        let ghost gp = g@;
        let ins = one_id(k_r);
        let op = Op::Transpose { perm: dims4(0, 2, 1, 3) };
        let ghost op_s = op;
        proof {
            assert(g@.next_node_id == g0.next_node_id + 7 && g@.next_tensor_id == g0.next_tensor_id + 9);
            assert(g@.nodes.len() == g0.nodes.len() + 7);
            assert(gp.tensors.contains_key(k_r@));
            assert(gp.tensors[k_r@].dtype == d);
            lemma_all_present(gp, ins@);
            assert(tensor_ids(ins@) =~= seq![tb + 6]);
            assert(ok ==> infer_rule(op_s, shapes_of(gp, ins@)) == Ok::<Seq<Seq<usize>>, Seq<char>>(seq![seq![b, nh, s, hd]])) by {
                if ok {
                    assert(tensor_is(gp, k_r, seq![b, s, nh, hd], d));
                    assert(shapes_of(gp, ins@) =~= seq![seq![b, s, nh, hd]]);
                    reveal(infer_rule);
                    lemma_transpose_0213(seq![b, s, nh, hd]);
                }
            }
        }
        let nm = layer_name(layer, ".attn.k.transpose");
        let k = match add1(g, nm.as_str(), op, ins.as_slice()) {
            Ok(t) => t,
            Err(e) => return Err(e),
        };
        proof {
            lemma_keeps_trans(g0, gp, g@);
            lemma_keeps_nodes_step(g0, gp, g@);
            assert(tensor_is(g@, k, infer_rule(op_s, shapes_of(gp, ins@))->Ok_0[0], d));
            assert(ok ==> tensor_is(g@, k, seq![b, nh, s, hd], d));
            assert(node_is(g@, nb + 7, layer_label(layer as nat, ".attn.k.transpose"@), seq![tb + 6], seq![tb + 9]));
            assert(built_by_nodes(g0) ==> built_by_nodes(g@));
            assert(transposes(g@, nb + 7, seq![0usize, 2, 1, 3]));
        }
        let ghost g_7 = g@;
        let ghost gp = g@;
        let ins = one_id(v_r);
        let op = Op::Transpose { perm: dims4(0, 2, 1, 3) };
        let ghost op_s = op;
        proof {
            assert(g@.next_node_id == g0.next_node_id + 8 && g@.next_tensor_id == g0.next_tensor_id + 10);
            assert(g@.nodes.len() == g0.nodes.len() + 8);
            assert(gp.tensors.contains_key(v_r@));
            assert(gp.tensors[v_r@].dtype == d);
            lemma_all_present(gp, ins@);
            assert(tensor_ids(ins@) =~= seq![tb + 7]);
            assert(ok ==> infer_rule(op_s, shapes_of(gp, ins@)) == Ok::<Seq<Seq<usize>>, Seq<char>>(seq![seq![b, nh, s, hd]])) by {
                if ok {
                    assert(tensor_is(gp, v_r, seq![b, s, nh, hd], d));
                    assert(shapes_of(gp, ins@) =~= seq![seq![b, s, nh, hd]]);
                    reveal(infer_rule);
                    lemma_transpose_0213(seq![b, s, nh, hd]);
                }
            }
        }
        let nm = layer_name(layer, ".attn.v.transpose");
        let v = match add1(g, nm.as_str(), op, ins.as_slice()) {
            Ok(t) => t,
            Err(e) => return Err(e),
        };
        proof {
            lemma_keeps_trans(g0, gp, g@);
            lemma_keeps_nodes_step(g0, gp, g@);
            assert(tensor_is(g@, v, infer_rule(op_s, shapes_of(gp, ins@))->Ok_0[0], d));
            assert(ok ==> tensor_is(g@, v, seq![b, nh, s, hd], d));
            assert(node_is(g@, nb + 8, layer_label(layer as nat, ".attn.v.transpose"@), seq![tb + 7], seq![tb + 10]));
            assert(built_by_nodes(g0) ==> built_by_nodes(g@));
            assert(transposes(g@, nb + 8, seq![0usize, 2, 1, 3]));
        }
        let ghost g_8 = g@;
    proof {
        if ok {
                assert(tensor_is(g@, q, seq![b, nh, s, hd], d));
                assert(tensor_is(g@, k, seq![b, nh, s, hd], d));
                assert(tensor_is(g@, v, seq![b, nh, s, hd], d));
        }
        assert(g@.nodes[(nb + 0) as u32] == g_0.nodes[(nb + 0) as u32]);
        assert(node_is(g@, nb + 0, layer_label(layer as nat, ".attn.ln"@), seq![x@ as int], seq![tb + 0]));
        assert(g@.nodes[(nb + 1) as u32] == g_1.nodes[(nb + 1) as u32]);
        assert(node_is(g@, nb + 1, layer_label(layer as nat, ".attn.qkv"@), seq![tb + 0], seq![tb + 1]));
        assert(g@.nodes[(nb + 2) as u32] == g_2.nodes[(nb + 2) as u32]);
        assert(node_is(g@, nb + 2, layer_label(layer as nat, ".attn.split"@), seq![tb + 1], seq![tb + 2, tb + 3, tb + 4]));
        assert(g@.nodes[(nb + 3) as u32] == g_3.nodes[(nb + 3) as u32]);
        assert(node_is(g@, nb + 3, layer_label(layer as nat, ".attn.q.reshape"@), seq![tb + 2], seq![tb + 5]));
        assert(g@.nodes[(nb + 4) as u32] == g_4.nodes[(nb + 4) as u32]);
        assert(node_is(g@, nb + 4, layer_label(layer as nat, ".attn.k.reshape"@), seq![tb + 3], seq![tb + 6]));
        assert(g@.nodes[(nb + 5) as u32] == g_5.nodes[(nb + 5) as u32]);
        assert(node_is(g@, nb + 5, layer_label(layer as nat, ".attn.v.reshape"@), seq![tb + 4], seq![tb + 7]));
        assert(g@.nodes[(nb + 6) as u32] == g_6.nodes[(nb + 6) as u32]);
        assert(node_is(g@, nb + 6, layer_label(layer as nat, ".attn.q.transpose"@), seq![tb + 5], seq![tb + 8]));
        assert(g@.nodes[(nb + 7) as u32] == g_7.nodes[(nb + 7) as u32]);
        assert(node_is(g@, nb + 7, layer_label(layer as nat, ".attn.k.transpose"@), seq![tb + 6], seq![tb + 9]));
        assert(g@.nodes[(nb + 8) as u32] == g_8.nodes[(nb + 8) as u32]);
        assert(node_is(g@, nb + 8, layer_label(layer as nat, ".attn.v.transpose"@), seq![tb + 7], seq![tb + 10]));
        assert(attn_inputs_built(*config, g@, layer as nat, x@ as int, nb, tb));
    }
    Ok((q, k, v))
}

/// Scaled dot-product attention over the per-head queries, keys and
/// values, back to the hidden layout: 7 nodes, 7 tensors.
#[verifier::rlimit(90)]
fn build_attention_core(g: &mut Graph, layer: usize, q: TensorId, k: TensorId, v: TensorId, config: &ViTConfig, scale: Float32) -> (r: Result<TensorId>)
    requires
        old(g).wf(),
        config_error(*config) is None,
        vit_fits(*config),
        old(g)@.next_node_id + 7 <= u32::MAX,
        old(g)@.next_tensor_id + 7 <= u32::MAX,
        old(g)@.tensors.contains_key(q@),
        old(g)@.tensors.contains_key(k@),
        old(g)@.tensors[k@].dtype == old(g)@.tensors[q@].dtype,
        old(g)@.tensors.contains_key(v@),
        old(g)@.tensors[v@].dtype == old(g)@.tensors[q@].dtype,
    ensures
        final(g).wf(),
        match r {
            Ok(context_flat) => final(g)@.next_node_id == old(g)@.next_node_id + 7
                && final(g)@.next_tensor_id == old(g)@.next_tensor_id + 7
                && final(g)@.nodes.len() == old(g)@.nodes.len() + 7
                && keeps_tensors(old(g)@, final(g)@)
                && keeps_nodes(old(g)@, final(g)@)
                && (built_by_nodes(old(g)@) ==> built_by_nodes(final(g)@))
                && attn_core_built(*config, scale, final(g)@, layer as nat, q@ as int, k@ as int, v@ as int, old(g)@.next_node_id as int, old(g)@.next_tensor_id as int)
                && context_flat@ == old(g)@.next_tensor_id + 6
                && tensor_is(final(g)@, context_flat, final(g)@.tensors[context_flat@].shape, old(g)@.tensors[q@].dtype)
                && (vit_reshapable(*config) && old(g)@.tensors[q@].shape == head_shape(*config) && old(g)@.tensors[k@].shape == head_shape(*config) && old(g)@.tensors[v@].shape == head_shape(*config) ==> final(g)@.tensors[context_flat@].shape == hidden_shape(*config)),
            Err(e) => e is ShapeMismatch && !(vit_reshapable(*config) && old(g)@.tensors[q@].shape == head_shape(*config) && old(g)@.tensors[k@].shape == head_shape(*config) && old(g)@.tensors[v@].shape == head_shape(*config)),
        },
{
    let ghost g0 = g@;
    let ghost d = g0.tensors[q@].dtype;
    let ghost ok = vit_reshapable(*config) && g0.tensors[q@].shape == head_shape(*config) && g0.tensors[k@].shape == head_shape(*config) && g0.tensors[v@].shape == head_shape(*config);
    let ghost nb = g0.next_node_id as int;
    let ghost tb = g0.next_tensor_id as int;
    let hd = config.head_dim();
    let b = config.batch_size;
    let s = config.seq_len();
    let h = config.hidden_dim;
    let nh = config.num_heads;
    proof {
        lemma_keeps_refl(g0);
        lemma_keeps_nodes_refl(g0);
        assert(built_by_nodes(g0) ==> built_by_nodes(g@));
        assert(nh * hd == h) by (nonlinear_arith)
            requires
                hd == h / nh,
                h % nh == 0,
                nh > 0,
        ;
        assert(hd >= 1 && hd <= h && nh <= h) by (nonlinear_arith)
            requires
                nh * hd == h,
                nh >= 1,
                h >= 1,
        ;
            assert(tensor_is(g0, q, g0.tensors[q@].shape, d));
            assert(tensor_is(g0, k, g0.tensors[k@].shape, d));
            assert(tensor_is(g0, v, g0.tensors[v@].shape, d));
        if ok {
                assert(tensor_is(g0, q, seq![b, nh, s, hd], d));
                assert(tensor_is(g0, k, seq![b, nh, s, hd], d));
                assert(tensor_is(g0, v, seq![b, nh, s, hd], d));
        }
    }
        let ghost gp = g@;
        let ins = one_id(k);
        let op = Op::Transpose { perm: dims4(0, 1, 3, 2) };
        let ghost op_s = op;
        proof {
            assert(g@.next_node_id == g0.next_node_id + 0 && g@.next_tensor_id == g0.next_tensor_id + 0);
            assert(g@.nodes.len() == g0.nodes.len() + 0);
            assert(gp.tensors.contains_key(k@));
            assert(gp.tensors[k@].dtype == d);
            lemma_all_present(gp, ins@);
            assert(tensor_ids(ins@) =~= seq![k@ as int]);
            assert(ok ==> infer_rule(op_s, shapes_of(gp, ins@)) == Ok::<Seq<Seq<usize>>, Seq<char>>(seq![seq![b, nh, hd, s]])) by {
                if ok {
                    assert(tensor_is(gp, k, seq![b, nh, s, hd], d));
                    assert(shapes_of(gp, ins@) =~= seq![seq![b, nh, s, hd]]);
                    reveal(infer_rule);
                    lemma_transpose_0132(seq![b, nh, s, hd]);
                }
            }
        }
        let nm = layer_name(layer, ".attn.k_t");
        let k_t = match add1(g, nm.as_str(), op, ins.as_slice()) {
            Ok(t) => t,
            Err(e) => return Err(e),
        };
        proof {
            lemma_keeps_trans(g0, gp, g@);
            lemma_keeps_nodes_step(g0, gp, g@);
            assert(tensor_is(g@, k_t, infer_rule(op_s, shapes_of(gp, ins@))->Ok_0[0], d));
            assert(ok ==> tensor_is(g@, k_t, seq![b, nh, hd, s], d));
            assert(node_is(g@, nb + 0, layer_label(layer as nat, ".attn.k_t"@), seq![k@ as int], seq![tb + 0]));
            assert(built_by_nodes(g0) ==> built_by_nodes(g@));
            assert(transposes(g@, nb + 0, seq![0usize, 1, 3, 2]));
        }
        let ghost g_0 = g@;
        let ghost gp = g@;
        let ins = two_ids(q, k_t);
        let op = Op::MatMul;
        let ghost op_s = op;
        proof {
            assert(g@.next_node_id == g0.next_node_id + 1 && g@.next_tensor_id == g0.next_tensor_id + 1);
            assert(g@.nodes.len() == g0.nodes.len() + 1);
            assert(gp.tensors.contains_key(q@));
            assert(gp.tensors.contains_key(k_t@));
            assert(gp.tensors[q@].dtype == d);
            lemma_all_present(gp, ins@);
            assert(tensor_ids(ins@) =~= seq![q@ as int, tb + 0]);
            assert(ok ==> infer_rule(op_s, shapes_of(gp, ins@)) == Ok::<Seq<Seq<usize>>, Seq<char>>(seq![seq![b, nh, s, s]])) by {
                if ok {
                    assert(tensor_is(gp, q, seq![b, nh, s, hd], d));
                    assert(tensor_is(gp, k_t, seq![b, nh, hd, s], d));
                    assert(shapes_of(gp, ins@) =~= seq![seq![b, nh, s, hd], seq![b, nh, hd, s]]);
                    reveal(infer_rule);
                    assert(seq![b, nh, s, hd].drop_last().push(seq![b, nh, hd, s].last()) =~= seq![b, nh, s, s]);
                }
            }
        }
        let nm = layer_name(layer, ".attn.scores");
        let scores = match add1(g, nm.as_str(), op, ins.as_slice()) {
            Ok(t) => t,
            Err(e) => return Err(e),
        };
        proof {
            lemma_keeps_trans(g0, gp, g@);
            lemma_keeps_nodes_step(g0, gp, g@);
            assert(tensor_is(g@, scores, infer_rule(op_s, shapes_of(gp, ins@))->Ok_0[0], d));
            assert(ok ==> tensor_is(g@, scores, seq![b, nh, s, s], d));
            assert(node_is(g@, nb + 1, layer_label(layer as nat, ".attn.scores"@), seq![q@ as int, tb + 0], seq![tb + 1]));
            assert(built_by_nodes(g0) ==> built_by_nodes(g@));
            assert(node_op(g@, nb + 1) == Op::MatMul);
        }
        let ghost g_1 = g@;
        let ghost gp = g@;
        let ins = one_id(scores);
        let op = Op::ScalarMul { factor: scale };
        let ghost op_s = op;
        proof {
            assert(g@.next_node_id == g0.next_node_id + 2 && g@.next_tensor_id == g0.next_tensor_id + 2);
            assert(g@.nodes.len() == g0.nodes.len() + 2);
            assert(gp.tensors.contains_key(scores@));
            assert(gp.tensors[scores@].dtype == d);
            lemma_all_present(gp, ins@);
            assert(tensor_ids(ins@) =~= seq![tb + 1]);
            assert(ok ==> infer_rule(op_s, shapes_of(gp, ins@)) == Ok::<Seq<Seq<usize>>, Seq<char>>(seq![seq![b, nh, s, s]])) by {
                if ok {
                    assert(tensor_is(gp, scores, seq![b, nh, s, s], d));
                    assert(shapes_of(gp, ins@) =~= seq![seq![b, nh, s, s]]);
                    reveal(infer_rule);
                    
                }
            }
        }
        let nm = layer_name(layer, ".attn.scale");
        let scaled = match add1(g, nm.as_str(), op, ins.as_slice()) {
            Ok(t) => t,
            Err(e) => return Err(e),
        };
        proof {
            lemma_keeps_trans(g0, gp, g@);
            lemma_keeps_nodes_step(g0, gp, g@);
            assert(tensor_is(g@, scaled, infer_rule(op_s, shapes_of(gp, ins@))->Ok_0[0], d));
            assert(ok ==> tensor_is(g@, scaled, seq![b, nh, s, s], d));
            assert(node_is(g@, nb + 2, layer_label(layer as nat, ".attn.scale"@), seq![tb + 1], seq![tb + 2]));
            assert(built_by_nodes(g0) ==> built_by_nodes(g@));
            assert(node_op(g@, nb + 2) == (Op::ScalarMul { factor: scale }));
        }
        let ghost g_2 = g@;
        let ghost gp = g@;
        let ins = one_id(scaled);
        let op = Op::Softmax { dim: -1 };
        let ghost op_s = op;
        proof {
            assert(g@.next_node_id == g0.next_node_id + 3 && g@.next_tensor_id == g0.next_tensor_id + 3);
            assert(g@.nodes.len() == g0.nodes.len() + 3);
            assert(gp.tensors.contains_key(scaled@));
            assert(gp.tensors[scaled@].dtype == d);
            lemma_all_present(gp, ins@);
            assert(tensor_ids(ins@) =~= seq![tb + 2]);
            assert(ok ==> infer_rule(op_s, shapes_of(gp, ins@)) == Ok::<Seq<Seq<usize>>, Seq<char>>(seq![seq![b, nh, s, s]])) by {
                if ok {
                    assert(tensor_is(gp, scaled, seq![b, nh, s, s], d));
                    assert(shapes_of(gp, ins@) =~= seq![seq![b, nh, s, s]]);
                    reveal(infer_rule);
                    
                }
            }
        }
        let nm = layer_name(layer, ".attn.softmax");
        let attn_w = match add1(g, nm.as_str(), op, ins.as_slice()) {
            Ok(t) => t,
            Err(e) => return Err(e),
        };
        proof {
            lemma_keeps_trans(g0, gp, g@);
            lemma_keeps_nodes_step(g0, gp, g@);
            assert(tensor_is(g@, attn_w, infer_rule(op_s, shapes_of(gp, ins@))->Ok_0[0], d));
            assert(ok ==> tensor_is(g@, attn_w, seq![b, nh, s, s], d));
            assert(node_is(g@, nb + 3, layer_label(layer as nat, ".attn.softmax"@), seq![tb + 2], seq![tb + 3]));
            assert(built_by_nodes(g0) ==> built_by_nodes(g@));
            assert(node_op(g@, nb + 3) == (Op::Softmax { dim: -1isize }));
        }
        let ghost g_3 = g@;
        let ghost gp = g@;
        let ins = two_ids(attn_w, v);
        let op = Op::MatMul;
        let ghost op_s = op;
        proof {
            assert(g@.next_node_id == g0.next_node_id + 4 && g@.next_tensor_id == g0.next_tensor_id + 4);
            assert(g@.nodes.len() == g0.nodes.len() + 4);
            assert(gp.tensors.contains_key(attn_w@));
            assert(gp.tensors.contains_key(v@));
            assert(gp.tensors[attn_w@].dtype == d);
            lemma_all_present(gp, ins@);
            assert(tensor_ids(ins@) =~= seq![tb + 3, v@ as int]);
            assert(ok ==> infer_rule(op_s, shapes_of(gp, ins@)) == Ok::<Seq<Seq<usize>>, Seq<char>>(seq![seq![b, nh, s, hd]])) by {
                if ok {
                    assert(tensor_is(gp, attn_w, seq![b, nh, s, s], d));
                    assert(tensor_is(gp, v, seq![b, nh, s, hd], d));
                    assert(shapes_of(gp, ins@) =~= seq![seq![b, nh, s, s], seq![b, nh, s, hd]]);
                    reveal(infer_rule);
                    assert(seq![b, nh, s, s].drop_last().push(seq![b, nh, s, hd].last()) =~= seq![b, nh, s, hd]);
                }
            }
        }
        let nm = layer_name(layer, ".attn.context");
        let context = match add1(g, nm.as_str(), op, ins.as_slice()) {
            Ok(t) => t,
            Err(e) => return Err(e),
        };
        proof {
            lemma_keeps_trans(g0, gp, g@);
            lemma_keeps_nodes_step(g0, gp, g@);
            assert(tensor_is(g@, context, infer_rule(op_s, shapes_of(gp, ins@))->Ok_0[0], d));
            assert(ok ==> tensor_is(g@, context, seq![b, nh, s, hd], d));
            assert(node_is(g@, nb + 4, layer_label(layer as nat, ".attn.context"@), seq![tb + 3, v@ as int], seq![tb + 4]));
            assert(built_by_nodes(g0) ==> built_by_nodes(g@));
            assert(node_op(g@, nb + 4) == Op::MatMul);
        }
        let ghost g_4 = g@;
        let ghost gp = g@;
        let ins = one_id(context);
        let op = Op::Transpose { perm: dims4(0, 2, 1, 3) };
        let ghost op_s = op;
        proof {
            assert(g@.next_node_id == g0.next_node_id + 5 && g@.next_tensor_id == g0.next_tensor_id + 5);
            assert(g@.nodes.len() == g0.nodes.len() + 5);
            assert(gp.tensors.contains_key(context@));
            assert(gp.tensors[context@].dtype == d);
            lemma_all_present(gp, ins@);
            assert(tensor_ids(ins@) =~= seq![tb + 4]);
            assert(ok ==> infer_rule(op_s, shapes_of(gp, ins@)) == Ok::<Seq<Seq<usize>>, Seq<char>>(seq![seq![b, s, nh, hd]])) by {
                if ok {
                    assert(tensor_is(gp, context, seq![b, nh, s, hd], d));
                    assert(shapes_of(gp, ins@) =~= seq![seq![b, nh, s, hd]]);
                    reveal(infer_rule);
                    lemma_transpose_0213(seq![b, nh, s, hd]);
                }
            }
        }
        let nm = layer_name(layer, ".attn.context_transpose");
        let context_t = match add1(g, nm.as_str(), op, ins.as_slice()) {
            Ok(t) => t,
            Err(e) => return Err(e),
        };
        proof {
            lemma_keeps_trans(g0, gp, g@);
            lemma_keeps_nodes_step(g0, gp, g@);
            assert(tensor_is(g@, context_t, infer_rule(op_s, shapes_of(gp, ins@))->Ok_0[0], d));
            assert(ok ==> tensor_is(g@, context_t, seq![b, s, nh, hd], d));
            assert(node_is(g@, nb + 5, layer_label(layer as nat, ".attn.context_transpose"@), seq![tb + 4], seq![tb + 5]));
            assert(built_by_nodes(g0) ==> built_by_nodes(g@));
            assert(transposes(g@, nb + 5, seq![0usize, 2, 1, 3]));
        }
        let ghost g_5 = g@;
        let ghost gp = g@;
        let ins = one_id(context_t);
        let op = Op::Reshape { target: target3(b, s, h) };
        let ghost op_s = op;
        proof {
            assert(g@.next_node_id == g0.next_node_id + 6 && g@.next_tensor_id == g0.next_tensor_id + 6);
            assert(g@.nodes.len() == g0.nodes.len() + 6);
            assert(gp.tensors.contains_key(context_t@));
            assert(gp.tensors[context_t@].dtype == d);
            lemma_all_present(gp, ins@);
            assert(tensor_ids(ins@) =~= seq![tb + 5]);
            assert(ok ==> infer_rule(op_s, shapes_of(gp, ins@)) == Ok::<Seq<Seq<usize>>, Seq<char>>(seq![seq![b, s, h]])) by {
                if ok {
                    assert(tensor_is(gp, context_t, seq![b, s, nh, hd], d));
                    assert(shapes_of(gp, ins@) =~= seq![seq![b, s, nh, hd]]);
                    reveal(infer_rule);
                    lemma_head_reshapes(b, s, h, nh, hd);
                }
            }
        }
        let nm = layer_name(layer, ".attn.context_reshape");
        let context_flat = match add1(g, nm.as_str(), op, ins.as_slice()) {
            Ok(t) => t,
            Err(e) => return Err(e),
        };
        proof {
            lemma_keeps_trans(g0, gp, g@);
            lemma_keeps_nodes_step(g0, gp, g@);
            assert(tensor_is(g@, context_flat, infer_rule(op_s, shapes_of(gp, ins@))->Ok_0[0], d));
            assert(ok ==> tensor_is(g@, context_flat, seq![b, s, h], d));
            assert(node_is(g@, nb + 6, layer_label(layer as nat, ".attn.context_reshape"@), seq![tb + 5], seq![tb + 6]));
            assert(built_by_nodes(g0) ==> built_by_nodes(g@));
            assert(node_op(g@, nb + 6) matches Op::Reshape { target } && target@ == seq![config.batch_size as isize, ((config.spec_num_patches() + 1) as usize) as isize, config.hidden_dim as isize]);
        }
        let ghost g_6 = g@;
    proof {
        if ok {
                assert(tensor_is(g@, context_flat, seq![b, s, h], d));
        }
        assert(g@.nodes[(nb + 0) as u32] == g_0.nodes[(nb + 0) as u32]);
        assert(node_is(g@, nb + 0, layer_label(layer as nat, ".attn.k_t"@), seq![k@ as int], seq![tb + 0]));
        assert(g@.nodes[(nb + 1) as u32] == g_1.nodes[(nb + 1) as u32]);
        assert(node_is(g@, nb + 1, layer_label(layer as nat, ".attn.scores"@), seq![q@ as int, tb + 0], seq![tb + 1]));
        assert(g@.nodes[(nb + 2) as u32] == g_2.nodes[(nb + 2) as u32]);
        assert(node_is(g@, nb + 2, layer_label(layer as nat, ".attn.scale"@), seq![tb + 1], seq![tb + 2]));
        assert(g@.nodes[(nb + 3) as u32] == g_3.nodes[(nb + 3) as u32]);
        assert(node_is(g@, nb + 3, layer_label(layer as nat, ".attn.softmax"@), seq![tb + 2], seq![tb + 3]));
        assert(g@.nodes[(nb + 4) as u32] == g_4.nodes[(nb + 4) as u32]);
        assert(node_is(g@, nb + 4, layer_label(layer as nat, ".attn.context"@), seq![tb + 3, v@ as int], seq![tb + 4]));
        assert(g@.nodes[(nb + 5) as u32] == g_5.nodes[(nb + 5) as u32]);
        assert(node_is(g@, nb + 5, layer_label(layer as nat, ".attn.context_transpose"@), seq![tb + 4], seq![tb + 5]));
        assert(g@.nodes[(nb + 6) as u32] == g_6.nodes[(nb + 6) as u32]);
        assert(node_is(g@, nb + 6, layer_label(layer as nat, ".attn.context_reshape"@), seq![tb + 5], seq![tb + 6]));
        assert(attn_core_built(*config, scale, g@, layer as nat, q@ as int, k@ as int, v@ as int, nb, tb));
    }
    Ok(context_flat)
}

/// Output projection, residual addition and the FFN block: 7 nodes, 7
/// tensors.
#[verifier::rlimit(90)]
fn build_layer_tail(g: &mut Graph, layer: usize, x: TensorId, context_flat: TensorId, config: &ViTConfig) -> (r: Result<TensorId>)
    requires
        old(g).wf(),
        config_error(*config) is None,
        vit_fits(*config),
        old(g)@.next_node_id + 7 <= u32::MAX,
        old(g)@.next_tensor_id + 7 <= u32::MAX,
        old(g)@.tensors.contains_key(x@),
        old(g)@.tensors.contains_key(context_flat@),
        old(g)@.tensors[context_flat@].dtype == old(g)@.tensors[x@].dtype,
    ensures
        final(g).wf(),
        match r {
            Ok(layer_out) => final(g)@.next_node_id == old(g)@.next_node_id + 7
                && final(g)@.next_tensor_id == old(g)@.next_tensor_id + 7
                && final(g)@.nodes.len() == old(g)@.nodes.len() + 7
                && keeps_tensors(old(g)@, final(g)@)
                && keeps_nodes(old(g)@, final(g)@)
                && (built_by_nodes(old(g)@) ==> built_by_nodes(final(g)@))
                && layer_tail_built(*config, final(g)@, layer as nat, x@ as int, context_flat@ as int, old(g)@.next_node_id as int, old(g)@.next_tensor_id as int)
                && layer_out@ == old(g)@.next_tensor_id + 6
                && tensor_is(final(g)@, layer_out, final(g)@.tensors[layer_out@].shape, old(g)@.tensors[x@].dtype)
                && (vit_reshapable(*config) && old(g)@.tensors[x@].shape == hidden_shape(*config) && old(g)@.tensors[context_flat@].shape == hidden_shape(*config) ==> final(g)@.tensors[layer_out@].shape == hidden_shape(*config)),
            Err(e) => e is ShapeMismatch && !(vit_reshapable(*config) && old(g)@.tensors[x@].shape == hidden_shape(*config) && old(g)@.tensors[context_flat@].shape == hidden_shape(*config)),
        },
{
    let ghost g0 = g@;
    let ghost d = g0.tensors[x@].dtype;
    let ghost ok = vit_reshapable(*config) && g0.tensors[x@].shape == hidden_shape(*config) && g0.tensors[context_flat@].shape == hidden_shape(*config);
    let ghost nb = g0.next_node_id as int;
    let ghost tb = g0.next_tensor_id as int;
    let hd = config.head_dim();
    let b = config.batch_size;
    let s = config.seq_len();
    let h = config.hidden_dim;
    let nh = config.num_heads;
    let mlp = config.mlp_dim;
    proof {
        lemma_keeps_refl(g0);
        lemma_keeps_nodes_refl(g0);
        assert(built_by_nodes(g0) ==> built_by_nodes(g@));
        assert(nh * hd == h) by (nonlinear_arith)
            requires
                hd == h / nh,
                h % nh == 0,
                nh > 0,
        ;
        assert(hd >= 1 && hd <= h && nh <= h) by (nonlinear_arith)
            requires
                nh * hd == h,
                nh >= 1,
                h >= 1,
        ;
            assert(tensor_is(g0, x, g0.tensors[x@].shape, d));
            assert(tensor_is(g0, context_flat, g0.tensors[context_flat@].shape, d));
        if ok {
                assert(tensor_is(g0, x, seq![b, s, h], d));
                assert(tensor_is(g0, context_flat, seq![b, s, h], d));
        }
    }
        let ghost gp = g@;
        let ins = one_id(context_flat);
        let op = Op::Linear { out_features: h, bias: true };
        let ghost op_s = op;
        proof {
            assert(g@.next_node_id == g0.next_node_id + 0 && g@.next_tensor_id == g0.next_tensor_id + 0);
            assert(g@.nodes.len() == g0.nodes.len() + 0);
            assert(gp.tensors.contains_key(context_flat@));
            assert(gp.tensors[context_flat@].dtype == d);
            lemma_all_present(gp, ins@);
            assert(tensor_ids(ins@) =~= seq![context_flat@ as int]);
            assert(ok ==> infer_rule(op_s, shapes_of(gp, ins@)) == Ok::<Seq<Seq<usize>>, Seq<char>>(seq![seq![b, s, h]])) by {
                if ok {
                    assert(tensor_is(gp, context_flat, seq![b, s, h], d));
                    assert(shapes_of(gp, ins@) =~= seq![seq![b, s, h]]);
                    reveal(infer_rule);
                    assert(seq![b, s, h].update(2, h) =~= seq![b, s, h]);
                }
            }
        }
        let nm = layer_name(layer, ".attn.out_proj");
        let proj = match add1(g, nm.as_str(), op, ins.as_slice()) {
            Ok(t) => t,
            Err(e) => return Err(e),
        };
        proof {
            lemma_keeps_trans(g0, gp, g@);
            lemma_keeps_nodes_step(g0, gp, g@);
            assert(tensor_is(g@, proj, infer_rule(op_s, shapes_of(gp, ins@))->Ok_0[0], d));
            assert(ok ==> tensor_is(g@, proj, seq![b, s, h], d));
            assert(node_is(g@, nb + 0, layer_label(layer as nat, ".attn.out_proj"@), seq![context_flat@ as int], seq![tb + 0]));
            assert(built_by_nodes(g0) ==> built_by_nodes(g@));
            assert(node_op(g@, nb + 0) == (Op::Linear { out_features: config.hidden_dim, bias: true }));
        }
        let ghost g_0 = g@;
        let ghost gp = g@;
        let ins = two_ids(x, proj);
        let op = Op::Add;
        let ghost op_s = op;
        proof {
            assert(g@.next_node_id == g0.next_node_id + 1 && g@.next_tensor_id == g0.next_tensor_id + 1);
            assert(g@.nodes.len() == g0.nodes.len() + 1);
            assert(gp.tensors.contains_key(x@));
            assert(gp.tensors.contains_key(proj@));
            assert(gp.tensors[x@].dtype == d);
            lemma_all_present(gp, ins@);
            assert(tensor_ids(ins@) =~= seq![x@ as int, tb + 0]);
            assert(ok ==> infer_rule(op_s, shapes_of(gp, ins@)) == Ok::<Seq<Seq<usize>>, Seq<char>>(seq![seq![b, s, h]])) by {
                if ok {
                    assert(tensor_is(gp, x, seq![b, s, h], d));
                    assert(tensor_is(gp, proj, seq![b, s, h], d));
                    assert(shapes_of(gp, ins@) =~= seq![seq![b, s, h], seq![b, s, h]]);
                    reveal(infer_rule);
                    
                }
            }
        }
        let nm = layer_name(layer, ".attn.residual");
        let attn_out = match add1(g, nm.as_str(), op, ins.as_slice()) {
            Ok(t) => t,
            Err(e) => return Err(e),
        };
        proof {
            lemma_keeps_trans(g0, gp, g@);
            lemma_keeps_nodes_step(g0, gp, g@);
            assert(tensor_is(g@, attn_out, infer_rule(op_s, shapes_of(gp, ins@))->Ok_0[0], d));
            assert(ok ==> tensor_is(g@, attn_out, seq![b, s, h], d));
            assert(node_is(g@, nb + 1, layer_label(layer as nat, ".attn.residual"@), seq![x@ as int, tb + 0], seq![tb + 1]));
            assert(built_by_nodes(g0) ==> built_by_nodes(g@));
            assert(node_op(g@, nb + 1) == Op::Add);
        }
        let ghost g_1 = g@;
        let ghost gp = g@;
        let ins = one_id(attn_out);
        let op = Op::LayerNorm { eps: Float32::from_bits(LN_EPS_BITS) };
        let ghost op_s = op;
        proof {
            assert(g@.next_node_id == g0.next_node_id + 2 && g@.next_tensor_id == g0.next_tensor_id + 2);
            assert(g@.nodes.len() == g0.nodes.len() + 2);
            assert(gp.tensors.contains_key(attn_out@));
            assert(gp.tensors[attn_out@].dtype == d);
            lemma_all_present(gp, ins@);
            assert(tensor_ids(ins@) =~= seq![tb + 1]);
            assert(ok ==> infer_rule(op_s, shapes_of(gp, ins@)) == Ok::<Seq<Seq<usize>>, Seq<char>>(seq![seq![b, s, h]])) by {
                if ok {
                    assert(tensor_is(gp, attn_out, seq![b, s, h], d));
                    assert(shapes_of(gp, ins@) =~= seq![seq![b, s, h]]);
                    reveal(infer_rule);
                    lemma_eps_non_negative();
                }
            }
        }
        let nm = layer_name(layer, ".ffn.ln");
        let ln2 = match add1(g, nm.as_str(), op, ins.as_slice()) {
            Ok(t) => t,
            Err(e) => return Err(e),
        };
        proof {
            lemma_keeps_trans(g0, gp, g@);
            lemma_keeps_nodes_step(g0, gp, g@);
            assert(tensor_is(g@, ln2, infer_rule(op_s, shapes_of(gp, ins@))->Ok_0[0], d));
            assert(ok ==> tensor_is(g@, ln2, seq![b, s, h], d));
            assert(node_is(g@, nb + 2, layer_label(layer as nat, ".ffn.ln"@), seq![tb + 1], seq![tb + 2]));
            assert(built_by_nodes(g0) ==> built_by_nodes(g@));
            assert(node_op(g@, nb + 2) == ln_op());
        }
        let ghost g_2 = g@;
        let ghost gp = g@;
        let ins = one_id(ln2);
        let op = Op::Linear { out_features: mlp, bias: true };
        let ghost op_s = op;
        proof {
            assert(g@.next_node_id == g0.next_node_id + 3 && g@.next_tensor_id == g0.next_tensor_id + 3);
            assert(g@.nodes.len() == g0.nodes.len() + 3);
            assert(gp.tensors.contains_key(ln2@));
            assert(gp.tensors[ln2@].dtype == d);
            lemma_all_present(gp, ins@);
            assert(tensor_ids(ins@) =~= seq![tb + 2]);
            assert(ok ==> infer_rule(op_s, shapes_of(gp, ins@)) == Ok::<Seq<Seq<usize>>, Seq<char>>(seq![seq![b, s, mlp]])) by {
                if ok {
                    assert(tensor_is(gp, ln2, seq![b, s, h], d));
                    assert(shapes_of(gp, ins@) =~= seq![seq![b, s, h]]);
                    reveal(infer_rule);
                    assert(seq![b, s, h].update(2, mlp) =~= seq![b, s, mlp]);
                }
            }
        }
        let nm = layer_name(layer, ".ffn.up");
        let ffn_up = match add1(g, nm.as_str(), op, ins.as_slice()) {
            Ok(t) => t,
            Err(e) => return Err(e),
        };
        proof {
            lemma_keeps_trans(g0, gp, g@);
            lemma_keeps_nodes_step(g0, gp, g@);
            assert(tensor_is(g@, ffn_up, infer_rule(op_s, shapes_of(gp, ins@))->Ok_0[0], d));
            assert(ok ==> tensor_is(g@, ffn_up, seq![b, s, mlp], d));
            assert(node_is(g@, nb + 3, layer_label(layer as nat, ".ffn.up"@), seq![tb + 2], seq![tb + 3]));
            assert(built_by_nodes(g0) ==> built_by_nodes(g@));
            assert(node_op(g@, nb + 3) == (Op::Linear { out_features: config.mlp_dim, bias: true }));
        }
        let ghost g_3 = g@;
        let ghost gp = g@;
        let ins = one_id(ffn_up);
        let op = Op::Gelu;
        let ghost op_s = op;
        proof {
            assert(g@.next_node_id == g0.next_node_id + 4 && g@.next_tensor_id == g0.next_tensor_id + 4);
            assert(g@.nodes.len() == g0.nodes.len() + 4);
            assert(gp.tensors.contains_key(ffn_up@));
            assert(gp.tensors[ffn_up@].dtype == d);
            lemma_all_present(gp, ins@);
            assert(tensor_ids(ins@) =~= seq![tb + 3]);
            assert(ok ==> infer_rule(op_s, shapes_of(gp, ins@)) == Ok::<Seq<Seq<usize>>, Seq<char>>(seq![seq![b, s, mlp]])) by {
                if ok {
                    assert(tensor_is(gp, ffn_up, seq![b, s, mlp], d));
                    assert(shapes_of(gp, ins@) =~= seq![seq![b, s, mlp]]);
                    reveal(infer_rule);
                    
                }
            }
        }
        let nm = layer_name(layer, ".ffn.gelu");
        let ffn_act = match add1(g, nm.as_str(), op, ins.as_slice()) {
            Ok(t) => t,
            Err(e) => return Err(e),
        };
        proof {
            lemma_keeps_trans(g0, gp, g@);
            lemma_keeps_nodes_step(g0, gp, g@);
            assert(tensor_is(g@, ffn_act, infer_rule(op_s, shapes_of(gp, ins@))->Ok_0[0], d));
            assert(ok ==> tensor_is(g@, ffn_act, seq![b, s, mlp], d));
            assert(node_is(g@, nb + 4, layer_label(layer as nat, ".ffn.gelu"@), seq![tb + 3], seq![tb + 4]));
            assert(built_by_nodes(g0) ==> built_by_nodes(g@));
            assert(node_op(g@, nb + 4) == Op::Gelu);
        }
        let ghost g_4 = g@;
        let ghost gp = g@;
        let ins = one_id(ffn_act);
        let op = Op::Linear { out_features: h, bias: true };
        let ghost op_s = op;
        proof {
            assert(g@.next_node_id == g0.next_node_id + 5 && g@.next_tensor_id == g0.next_tensor_id + 5);
            assert(g@.nodes.len() == g0.nodes.len() + 5);
            assert(gp.tensors.contains_key(ffn_act@));
            assert(gp.tensors[ffn_act@].dtype == d);
            lemma_all_present(gp, ins@);
            assert(tensor_ids(ins@) =~= seq![tb + 4]);
            assert(ok ==> infer_rule(op_s, shapes_of(gp, ins@)) == Ok::<Seq<Seq<usize>>, Seq<char>>(seq![seq![b, s, h]])) by {
                if ok {
                    assert(tensor_is(gp, ffn_act, seq![b, s, mlp], d));
                    assert(shapes_of(gp, ins@) =~= seq![seq![b, s, mlp]]);
                    reveal(infer_rule);
                    assert(seq![b, s, mlp].update(2, h) =~= seq![b, s, h]);
                }
            }
        }
        let nm = layer_name(layer, ".ffn.down");
        let ffn_down = match add1(g, nm.as_str(), op, ins.as_slice()) {
            Ok(t) => t,
            Err(e) => return Err(e),
        };
        proof {
            lemma_keeps_trans(g0, gp, g@);
            lemma_keeps_nodes_step(g0, gp, g@);
            assert(tensor_is(g@, ffn_down, infer_rule(op_s, shapes_of(gp, ins@))->Ok_0[0], d));
            assert(ok ==> tensor_is(g@, ffn_down, seq![b, s, h], d));
            assert(node_is(g@, nb + 5, layer_label(layer as nat, ".ffn.down"@), seq![tb + 4], seq![tb + 5]));
            assert(built_by_nodes(g0) ==> built_by_nodes(g@));
            assert(node_op(g@, nb + 5) == (Op::Linear { out_features: config.hidden_dim, bias: true }));
        }
        let ghost g_5 = g@;
        let ghost gp = g@;
        let ins = two_ids(attn_out, ffn_down);
        let op = Op::Add;
        let ghost op_s = op;
        proof {
            assert(g@.next_node_id == g0.next_node_id + 6 && g@.next_tensor_id == g0.next_tensor_id + 6);
            assert(g@.nodes.len() == g0.nodes.len() + 6);
            assert(gp.tensors.contains_key(attn_out@));
            assert(gp.tensors.contains_key(ffn_down@));
            assert(gp.tensors[attn_out@].dtype == d);
            lemma_all_present(gp, ins@);
            assert(tensor_ids(ins@) =~= seq![tb + 1, tb + 5]);
            assert(ok ==> infer_rule(op_s, shapes_of(gp, ins@)) == Ok::<Seq<Seq<usize>>, Seq<char>>(seq![seq![b, s, h]])) by {
                if ok {
                    assert(tensor_is(gp, attn_out, seq![b, s, h], d));
                    assert(tensor_is(gp, ffn_down, seq![b, s, h], d));
                    assert(shapes_of(gp, ins@) =~= seq![seq![b, s, h], seq![b, s, h]]);
                    reveal(infer_rule);
                    
                }
            }
        }
        let nm = layer_name(layer, ".ffn.residual");
        let layer_out = match add1(g, nm.as_str(), op, ins.as_slice()) {
            Ok(t) => t,
            Err(e) => return Err(e),
        };
        proof {
            lemma_keeps_trans(g0, gp, g@);
            lemma_keeps_nodes_step(g0, gp, g@);
            assert(tensor_is(g@, layer_out, infer_rule(op_s, shapes_of(gp, ins@))->Ok_0[0], d));
            assert(ok ==> tensor_is(g@, layer_out, seq![b, s, h], d));
            assert(node_is(g@, nb + 6, layer_label(layer as nat, ".ffn.residual"@), seq![tb + 1, tb + 5], seq![tb + 6]));
            assert(built_by_nodes(g0) ==> built_by_nodes(g@));
            assert(node_op(g@, nb + 6) == Op::Add);
        }
        let ghost g_6 = g@;
    proof {
        if ok {
                assert(tensor_is(g@, layer_out, seq![b, s, h], d));
        }
        assert(g@.nodes[(nb + 0) as u32] == g_0.nodes[(nb + 0) as u32]);
        assert(node_is(g@, nb + 0, layer_label(layer as nat, ".attn.out_proj"@), seq![context_flat@ as int], seq![tb + 0]));
        assert(g@.nodes[(nb + 1) as u32] == g_1.nodes[(nb + 1) as u32]);
        assert(node_is(g@, nb + 1, layer_label(layer as nat, ".attn.residual"@), seq![x@ as int, tb + 0], seq![tb + 1]));
        assert(g@.nodes[(nb + 2) as u32] == g_2.nodes[(nb + 2) as u32]);
        assert(node_is(g@, nb + 2, layer_label(layer as nat, ".ffn.ln"@), seq![tb + 1], seq![tb + 2]));
        assert(g@.nodes[(nb + 3) as u32] == g_3.nodes[(nb + 3) as u32]);
        assert(node_is(g@, nb + 3, layer_label(layer as nat, ".ffn.up"@), seq![tb + 2], seq![tb + 3]));
        assert(g@.nodes[(nb + 4) as u32] == g_4.nodes[(nb + 4) as u32]);
        assert(node_is(g@, nb + 4, layer_label(layer as nat, ".ffn.gelu"@), seq![tb + 3], seq![tb + 4]));
        assert(g@.nodes[(nb + 5) as u32] == g_5.nodes[(nb + 5) as u32]);
        assert(node_is(g@, nb + 5, layer_label(layer as nat, ".ffn.down"@), seq![tb + 4], seq![tb + 5]));
        assert(g@.nodes[(nb + 6) as u32] == g_6.nodes[(nb + 6) as u32]);
        assert(node_is(g@, nb + 6, layer_label(layer as nat, ".ffn.residual"@), seq![tb + 1, tb + 5], seq![tb + 6]));
        assert(layer_tail_built(*config, g@, layer as nat, x@ as int, context_flat@ as int, nb, tb));
    }
    Ok(layer_out)
}

proof fn lemma_node_kept(g1: GraphView, g2: GraphView, id: int)
    requires
        keeps_nodes(g1, g2),
        0 <= id <= u32::MAX,
        g1.nodes.contains_key(id as u32),
    ensures
        g2.nodes.contains_key(id as u32),
        g2.nodes[id as u32] == g1.nodes[id as u32],
        node_op(g2, id) == node_op(g1, id),
{
}

proof fn lemma_attn_inputs_kept(c: ViTConfig, g1: GraphView, g2: GraphView, l: nat, x: int, nb: int, tb: int)
    requires
        attn_inputs_built(c, g1, l, x, nb, tb),
        keeps_nodes(g1, g2),
    ensures
        attn_inputs_built(c, g2, l, x, nb, tb),
{
    lemma_node_kept(g1, g2, nb);
    lemma_node_kept(g1, g2, nb + 1);
    lemma_node_kept(g1, g2, nb + 2);
    lemma_node_kept(g1, g2, nb + 3);
    lemma_node_kept(g1, g2, nb + 4);
    lemma_node_kept(g1, g2, nb + 5);
    lemma_node_kept(g1, g2, nb + 6);
    lemma_node_kept(g1, g2, nb + 7);
    lemma_node_kept(g1, g2, nb + 8);
}

proof fn lemma_attn_core_kept(c: ViTConfig, scale: Float32, g1: GraphView, g2: GraphView, l: nat, q: int, k: int, v: int, nb: int, tb: int)
    requires
        attn_core_built(c, scale, g1, l, q, k, v, nb, tb),
        keeps_nodes(g1, g2),
    ensures
        attn_core_built(c, scale, g2, l, q, k, v, nb, tb),
{
    lemma_node_kept(g1, g2, nb);
    lemma_node_kept(g1, g2, nb + 1);
    lemma_node_kept(g1, g2, nb + 2);
    lemma_node_kept(g1, g2, nb + 3);
    lemma_node_kept(g1, g2, nb + 4);
    lemma_node_kept(g1, g2, nb + 5);
    lemma_node_kept(g1, g2, nb + 6);
}

proof fn lemma_layer_tail_kept(c: ViTConfig, g1: GraphView, g2: GraphView, l: nat, x: int, cf: int, nb: int, tb: int)
    requires
        layer_tail_built(c, g1, l, x, cf, nb, tb),
        keeps_nodes(g1, g2),
    ensures
        layer_tail_built(c, g2, l, x, cf, nb, tb),
{
    lemma_node_kept(g1, g2, nb);
    lemma_node_kept(g1, g2, nb + 1);
    lemma_node_kept(g1, g2, nb + 2);
    lemma_node_kept(g1, g2, nb + 3);
    lemma_node_kept(g1, g2, nb + 4);
    lemma_node_kept(g1, g2, nb + 5);
    lemma_node_kept(g1, g2, nb + 6);
}

proof fn lemma_layer_kept(c: ViTConfig, scale: Float32, g1: GraphView, g2: GraphView, l: nat)
    requires
        layer_built(c, scale, g1, l),
        keeps_nodes(g1, g2),
    ensures
        layer_built(c, scale, g2, l),
{
    let x = (1 + 25 * l) as int;
    let nb = (1 + 23 * l) as int;
    let tb = (2 + 25 * l) as int;
    lemma_attn_inputs_kept(c, g1, g2, l, x, nb, tb);
    lemma_attn_core_kept(c, scale, g1, g2, l, tb + 8, tb + 9, tb + 10, nb + 9, tb + 11);
    lemma_layer_tail_kept(c, g1, g2, l, x, tb + 17, nb + 16, tb + 18);
}

/// Build a single transformer layer (attention block + FFN block): 23
/// nodes and 25 tensors. When the layer input has the hidden shape and
/// the sizes are reshapable, every shape check passes and the output has
/// the hidden shape again.
fn build_transformer_layer(g: &mut Graph, layer: usize, x: TensorId, config: &ViTConfig, scale: Float32) -> (r: Result<TensorId>)
    requires
        old(g).wf(),
        config_error(*config) is None,
        vit_fits(*config),
        old(g)@.next_node_id + 23 <= u32::MAX,
        old(g)@.next_tensor_id + 25 <= u32::MAX,
        old(g)@.tensors.contains_key(x@),
    ensures
        final(g).wf(),
        match r {
            Ok(y) => final(g)@.next_node_id == old(g)@.next_node_id + 23
                && final(g)@.next_tensor_id == old(g)@.next_tensor_id + 25
                && final(g)@.nodes.len() == old(g)@.nodes.len() + 23
                && keeps_tensors(old(g)@, final(g)@)
                && keeps_nodes(old(g)@, final(g)@)
                && layer_built_at(*config, scale, final(g)@, layer as nat, x@ as int,
                    old(g)@.next_node_id as int, old(g)@.next_tensor_id as int)
                && (built_by_nodes(old(g)@) ==> built_by_nodes(final(g)@))
                && y@ == old(g)@.next_tensor_id + 24
                && tensor_is(final(g)@, y, final(g)@.tensors[y@].shape, old(g)@.tensors[x@].dtype)
                && (vit_reshapable(*config) && old(g)@.tensors[x@].shape == hidden_shape(*config)
                    ==> final(g)@.tensors[y@].shape == hidden_shape(*config)),
            Err(e) => e is ShapeMismatch
                && !(vit_reshapable(*config) && old(g)@.tensors[x@].shape == hidden_shape(*config)),
        },
{
    let ghost g0 = g@;
    let ghost d = g0.tensors[x@].dtype;
    let ghost ok = vit_reshapable(*config) && g0.tensors[x@].shape == hidden_shape(*config);
    proof {
        assert(tensor_is(g0, x, g0.tensors[x@].shape, d));
    }
    let (q, k, v) = build_attention_inputs(g, layer, x, config)?;
    let ghost g1 = g@;
    proof {
        assert(tensor_is(g1, x, g0.tensors[x@].shape, d));
    }
    let context = build_attention_core(g, layer, q, k, v, config, scale)?;
    let ghost g2 = g@;
    proof {
        lemma_keeps_trans(g0, g1, g2);
        assert(tensor_is(g2, x, g0.tensors[x@].shape, d));
        assert(tensor_is(g2, context, g2.tensors[context@].shape, d));
    }
    let y = build_layer_tail(g, layer, x, context, config)?;
    proof {
        lemma_keeps_trans(g0, g2, g@);
        let nb = g0.next_node_id as int;
        let tb = g0.next_tensor_id as int;
        lemma_keeps_nodes_trans(g0, g1, g2);
        lemma_keeps_nodes_trans(g0, g2, g@);
        lemma_keeps_nodes_trans(g1, g2, g@);
        lemma_attn_inputs_kept(*config, g1, g@, layer as nat, x@ as int, nb, tb);
        lemma_attn_core_kept(*config, scale, g2, g@, layer as nat, tb + 8, tb + 9, tb + 10, nb + 9, tb + 11);
    }
    Ok(y)
}

/// The ids below `k` form a finite set of `k` elements.
proof fn lemma_ids_below(k: nat)
    requires
        k <= u32::MAX + 1,
    ensures
        Set::new(|x: u32| (x as nat) < k).finite(),
        Set::new(|x: u32| (x as nat) < k).len() == k,
    decreases k,
{
    if k == 0 {
        assert(Set::new(|x: u32| (x as nat) < k) =~= Set::<u32>::empty());
    } else {
        lemma_ids_below((k - 1) as nat);
        let prev = Set::new(|x: u32| (x as nat) < (k - 1) as nat);
        assert(Set::new(|x: u32| (x as nat) < k) =~= prev.insert((k - 1) as u32));
    }
}

/// A graph built by nodes has as many tensors as tensor ids handed out.
proof fn lemma_dense_tensors_len(g: GraphView)
    requires
        built_by_nodes(g),
    ensures
        g.tensors.len() == g.next_tensor_id,
{
    crate::graph::builder::lemma_built_dense(g);
    lemma_ids_below(g.next_tensor_id as nat);
    assert(g.tensors.dom() =~= Set::new(|x: u32| (x as nat) < g.next_tensor_id as nat));
}

/// A graph with as many nodes as node ids handed out uses every id.
proof fn lemma_dense_nodes(g: GraphView)
    requires
        g.wf(),
        g.nodes.dom().finite(),
        g.nodes.len() == g.next_node_id,
    ensures
        forall|u: u32| u < g.next_node_id ==> #[trigger] g.nodes.contains_key(u),
{
    let ids = Set::new(|x: u32| (x as nat) < g.next_node_id as nat);
    lemma_ids_below(g.next_node_id as nat);
    assert(g.nodes.dom().subset_of(ids));
    vstd::set_lib::lemma_subset_equality(g.nodes.dom(), ids);
    assert forall|u: u32| u < g.next_node_id implies #[trigger] g.nodes.contains_key(u) by {
        assert(ids.contains(u));
    }
}

/// What a successful build of the ViT graph for `c`, with attention
/// scale `scale`, holds: the graph is named after the variant; its nodes
/// are, with ids handed out densely, the patch embedding (node 0, reading
/// the image, tensor 0), the 23 nodes of each transformer layer in turn
/// (see [`layer_built`]) and the two-node head; its only input is the
/// image tensor `[batch, in_channels, image_size, image_size]` and its only
/// output the logits, both of the configured element type, the logits
/// `[batch, seq_len, num_classes]` when the sizes are reshapable. Its
/// `25 * num_layers + 4` tensors are the image and the nodes' outputs,
/// each with its inferred shape, element type, producer and consumers
/// (see [`built_by_nodes`]). The graph has no cycle, and every node has
/// at most as many incoming edges as inputs, so its traversal order lists
/// every node (see [`lemma_traversal_complete`](crate::graph::topo::lemma_traversal_complete)).
pub open spec fn vit_built(c: ViTConfig, scale: Float32, g: GraphView) -> bool {
    let n = c.num_layers as int;
    &&& g.wf()
    &&& g.name == c.name@
    &&& g.nodes.len() == 23 * c.num_layers + 3
    &&& g.next_node_id == 23 * c.num_layers + 3
    &&& g.next_tensor_id == 25 * c.num_layers + 4
    &&& g.inputs.len() == 1
    &&& g.inputs[0]@ == 0
    &&& tensor_is(g, g.inputs[0], seq![c.batch_size, c.in_channels, c.image_size, c.image_size], c.dtype)
    &&& g.outputs.len() == 1
    &&& g.tensors.contains_key(g.outputs[0]@)
    &&& g.tensors[g.outputs[0]@].dtype == c.dtype
    &&& vit_reshapable(c) ==> g.tensors[g.outputs[0]@].shape
            == seq![c.batch_size, (c.spec_num_patches() + 1) as usize, c.num_classes]
    &&& node_is(g, 0, "patch_embed"@, seq![0int], seq![1int])
    &&& node_op(g, 0) == (Op::PatchEmbed {
            patch_size: c.patch_size,
            in_channels: c.in_channels,
            embed_dim: c.hidden_dim,
        })
    &&& forall|l: nat| l < c.num_layers ==> #[trigger] layer_built(c, scale, g, l)
    &&& node_is(g, 23 * n + 1, "head.ln"@, seq![25 * n + 1], seq![25 * n + 2])
    &&& node_op(g, 23 * n + 1) == ln_op()
    &&& node_is(g, 23 * n + 2, "head.linear"@, seq![25 * n + 2], seq![25 * n + 3])
    &&& node_op(g, 23 * n + 2) == (Op::Linear { out_features: c.num_classes, bias: true })
    &&& g.outputs[0]@ == 25 * n + 3
    &&& built_by_nodes(g)
    &&& g.tensors.len() == 25 * n + 4
    &&& is_acyclic(g)
    &&& in_degrees_fit(g)
}

/// Build a complete ViT computation graph from a configuration.
///
/// The graph includes:
/// - Patch embedding (conv2d tokenization + CLS + position embedding)
/// - N transformer layers (attention block + FFN block each)
/// - Classification head (LayerNorm + Linear)
///
/// `attn_scale` is the factor applied to the attention scores, in the
/// model `1/√head_dim` rounded to single precision.
///
/// # Errors
///
/// [`Error::InvalidGraph`] naming the first rejected field of the
/// configuration (see [`config_error`]); [`Error::ShapeMismatch`] when a
/// reshape target cannot express the batch size or sequence length.
#[verifier::rlimit(80)]
pub fn build_vit(config: &ViTConfig, attn_scale: Float32) -> (r: Result<Graph>)
    requires
        config_error(*config) is None ==> vit_fits(*config),
    ensures
        match r {
            Err(Error::InvalidGraph { reason }) => config_error(*config) == Some(reason@),
            Err(Error::ShapeMismatch { .. }) => config_error(*config) is None && !vit_reshapable(*config),
            Err(_) => false,
            Ok(g) => config_error(*config) is None && vit_built(*config, attn_scale, g@),
        },
        config_error(*config) is None && vit_reshapable(*config) ==> r is Ok,
{
    broadcast use crate::graph::group_graph_model;
    if let Some(reason) = check_config(config) {
        return Err(Error::InvalidGraph { reason });
    }
    let mut g = Graph::new(config.name.as_str());
    let dims = dims4(config.batch_size, config.in_channels, config.image_size, config.image_size);
    let image = g.input("image", dims.as_slice(), config.dtype);
    let ghost gi = g@;
    proof {
        assert(gi.tensors.dom() =~= set![0u32]);
        assert(gi.nodes.len() == 0);
        assert(tensor_is(gi, image, seq![config.batch_size, config.in_channels, config.image_size, config.image_size], config.dtype));
        lemma_keeps_refl(gi);
    }
    // Patch embedding -> [B, seq_len, hidden_dim].
    let ins = one_id(image);
    let op = Op::PatchEmbed {
        patch_size: config.patch_size,
        in_channels: config.in_channels,
        embed_dim: config.hidden_dim,
    };
    let ghost op_s = op;
    proof {
        lemma_all_present(gi, ins@);
        let a = seq![config.batch_size, config.in_channels, config.image_size, config.image_size];
        assert(shapes_of(gi, ins@) =~= seq![a]);
        reveal(infer_rule);
        assert(patch_tokens(config.image_size, config.image_size, config.patch_size) == config.spec_num_patches() + 1);
        assert(infer_rule(op_s, shapes_of(gi, ins@)) == Ok::<Seq<Seq<usize>>, Seq<char>>(seq![hidden_shape(*config)]));
    }
    let mut x = match add1(&mut g, "patch_embed", op, ins.as_slice()) {
        Ok(t) => t,
        Err(e) => {
            proof {
                assert(false);
            }
            return Err(e);
        },
    };
    let mut layer: usize = 0;
    proof {
        assert(tensor_is(g@, x, hidden_shape(*config), config.dtype));
        assert(tensor_ids(ins@) =~= seq![0int]);
        assert(node_is(g@, 0, "patch_embed"@, seq![0int], seq![1int]));
    }
    while layer < config.num_layers
        invariant
            g.wf(),
            config_error(*config) is None,
            vit_fits(*config),
            layer <= config.num_layers,
            g@.next_node_id == 1 + 23 * layer,
            g@.next_tensor_id == 2 + 25 * layer,
            g@.nodes.len() == 1 + 23 * layer,
            keeps_tensors(gi, g@),
            tensor_is(gi, image, seq![config.batch_size, config.in_channels, config.image_size, config.image_size], config.dtype),
            gi.inputs == seq![image],
            gi.outputs == Seq::<TensorId>::empty(),
            gi.name == config.name@,
            image@ == 0,
            tensor_is(g@, x, g@.tensors[x@].shape, config.dtype),
            vit_reshapable(*config) ==> g@.tensors[x@].shape == hidden_shape(*config),
            x@ == 1 + 25 * layer,
            node_is(g@, 0, "patch_embed"@, seq![0int], seq![1int]),
            node_op(g@, 0) == (Op::PatchEmbed {
                patch_size: config.patch_size,
                in_channels: config.in_channels,
                embed_dim: config.hidden_dim,
            }),
            forall|l: nat| l < layer ==> #[trigger] layer_built(*config, attn_scale, g@, l),
            built_by_nodes(g@),
        decreases config.num_layers - layer,
    {
        let ghost gp = g@;
        let ghost xp = x;
        x = match build_transformer_layer(&mut g, layer, x, config, attn_scale) {
            Ok(y) => y,
            Err(e) => return Err(e),
        };
        proof {
            lemma_keeps_trans(gi, gp, g@);
            lemma_node_kept(gp, g@, 0);
            assert forall|l: nat| l < layer + 1 implies #[trigger] layer_built(*config, attn_scale, g@, l) by {
                if l < layer {
                    lemma_layer_kept(*config, attn_scale, gp, g@, l);
                } else {
                    assert(l == layer as nat);
                    assert(layer_built_at(*config, attn_scale, g@, layer as nat, xp@ as int,
                        gp.next_node_id as int, gp.next_tensor_id as int));
                }
            }
        }
        layer = layer + 1;
    }
    // Classification head.
    let ghost gh = g@;
    let ins = one_id(x);
    proof {
        lemma_all_present(gh, ins@);
    }
    let op = Op::LayerNorm { eps: Float32::from_bits(LN_EPS_BITS) };
    let ghost op_s = op;
    proof {
        assert(vit_reshapable(*config) ==> infer_rule(op_s, shapes_of(gh, ins@))
            == Ok::<Seq<Seq<usize>>, Seq<char>>(seq![hidden_shape(*config)])) by {
            if vit_reshapable(*config) {
                assert(shapes_of(gh, ins@) =~= seq![hidden_shape(*config)]);
                reveal(infer_rule);
                lemma_eps_non_negative();
            }
        }
    }
    let ln_final = match add1(&mut g, "head.ln", op, ins.as_slice()) {
        Ok(t) => t,
        Err(e) => return Err(e),
    };
    let ghost gl = g@;
    proof {
        lemma_keeps_nodes_refl(gh);
        lemma_keeps_nodes_step(gh, gh, gl);
        assert(tensor_ids(ins@) =~= seq![x@ as int]);
        lemma_keeps_trans(gi, gh, gl);
        assert(tensor_is(gl, ln_final, infer_rule(op_s, shapes_of(gh, ins@))->Ok_0[0], config.dtype));
    }
    let ins = one_id(ln_final);
    proof {
        lemma_all_present(gl, ins@);
    }
    let op = Op::Linear { out_features: config.num_classes, bias: true };
    let ghost op_s2 = op;
    let ghost logits_shape = seq![config.batch_size, (config.spec_num_patches() + 1) as usize, config.num_classes];
    proof {
        assert(vit_reshapable(*config) ==> infer_rule(op_s2, shapes_of(gl, ins@))
            == Ok::<Seq<Seq<usize>>, Seq<char>>(seq![logits_shape])) by {
            if vit_reshapable(*config) {
                assert(shapes_of(gl, ins@) =~= seq![hidden_shape(*config)]);
                reveal(infer_rule);
                assert(hidden_shape(*config).update(2, config.num_classes) =~= logits_shape);
            }
        }
    }
    let logits = match add1(&mut g, "head.linear", op, ins.as_slice()) {
        Ok(t) => t,
        Err(e) => return Err(e),
    };
    let ghost gz = g@;
    proof {
        lemma_keeps_nodes_step(gh, gl, gz);
        assert(tensor_ids(ins@) =~= seq![ln_final@ as int]);
        lemma_keeps_trans(gi, gl, gz);
        assert(tensor_is(gz, logits, infer_rule(op_s2, shapes_of(gl, ins@))->Ok_0[0], config.dtype));
        assert(tensor_is(gz, image, seq![config.batch_size, config.in_channels, config.image_size, config.image_size], config.dtype));
    }
    g.mark_output(logits);
    proof {
        assert(g@.outputs =~= seq![logits]);
        assert(g@.nodes == gz.nodes);
        crate::graph::builder::lemma_built_same_content(gz, g@);
        lemma_dense_tensors_len(g@);
        assert(g@.nodes.dom() =~= g.nodes@.dom());
        lemma_dense_nodes(g@);
        crate::graph::topo::lemma_built_acyclic(g@);
        crate::graph::topo::lemma_built_in_degrees_fit(g@);
        let n = config.num_layers as int;
        lemma_node_kept(gh, gz, 0);
        lemma_node_kept(gl, gz, 23 * n + 1);
        assert forall|l: nat| l < config.num_layers implies #[trigger] layer_built(*config, attn_scale, g@, l) by {
            lemma_layer_kept(*config, attn_scale, gh, gz, l);
        }
        assert(vit_built(*config, attn_scale, g@));
    }
    Ok(g)
}

} // verus!
