//! HBM (off-chip memory) traffic estimates per operation.
//!
//! An unfused operation reads its inputs and parameters from HBM and writes
//! its outputs back; a fused block reads its input activations and all of
//! its parameters once and keeps every intermediate on chip. Every count
//! saturates at `u64::MAX`.

use vstd::prelude::*;
use crate::arith::{clip, elements, lemma_elements_clip4, lemma_sat_add_clip, lemma_sat_mul_clip, lemma_sat_mul_clip2, sat_add, sat_mul, sat_mul_usize, add_sat, mul_sat, mul_sat_usize};
use crate::op::Activation;
use crate::dtype::DType;
use crate::op::{Op, shapes_view, spec_last_dim, last_dim};
use crate::op::flops::elements_saturating;

verus! {

/// Saturating sum of the element counts of all shapes.
pub open spec fn total_elements(s: Seq<Seq<usize>>) -> u64
    decreases s.len(),
{
    if s.len() == 0 { 0 } else { sat_add(total_elements(s.drop_last()), elements(s.last())) }
}

/// Saturating sum over all shapes of the bytes each one occupies.
pub open spec fn total_bytes(s: Seq<Seq<usize>>, dtype: DType) -> u64
    decreases s.len(),
{
    if s.len() == 0 {
        0
    } else {
        sat_add(total_bytes(s.drop_last(), dtype), dtype.spec_bytes_for(elements(s.last())))
    }
}

/// Parameter elements of a fused attention block: QKV and output
/// projections, layer-norm scale and shift, and (optionally) biases.
pub open spec fn attention_params(heads: u64, head_dim: u64, hidden: u64, bias: bool) -> u64 {
    let qkv_width = sat_mul(sat_mul(3, heads), head_dim);
    let qkv = sat_mul(hidden, qkv_width);
    let out = sat_mul(sat_mul(heads, head_dim), hidden);
    let ln = sat_mul(2, hidden);
    let b = if bias { sat_add(qkv_width, hidden) } else { 0 };
    sat_add(sat_add(sat_add(qkv, out), ln), b)
}

/// Parameter elements of a fused FFN block: up and down projections,
/// layer-norm scale and shift, and (optionally) biases.
pub open spec fn ffn_params(hidden: u64, inter: u64, bias: bool) -> u64 {
    let up = sat_mul(hidden, inter);
    let down = sat_mul(inter, hidden);
    let ln = sat_mul(2, hidden);
    let b = if bias { sat_add(inter, hidden) } else { 0 };
    sat_add(sat_add(sat_add(up, down), ln), b)
}

/// Parameter elements of a fused transformer layer: both projections of
/// each block, two layer norms, and (optionally) all biases.
pub open spec fn transformer_params(heads: u64, head_dim: u64, hidden: u64, inter: u64, bias: bool) -> u64 {
    let qkv_width = sat_mul(sat_mul(3, heads), head_dim);
    let qkv = sat_mul(hidden, qkv_width);
    let out = sat_mul(sat_mul(heads, head_dim), hidden);
    let up = sat_mul(hidden, inter);
    let down = sat_mul(inter, hidden);
    let ln = sat_mul(4, hidden);
    let b = if bias { sat_add(sat_add(sat_add(qkv_width, hidden), inter), hidden) } else { 0 };
    sat_add(sat_add(sat_add(sat_add(sat_add(qkv, out), up), down), ln), b)
}

/// Patch embedding reads the image, the convolution weights, and the
/// position and class embeddings (parameters are not scaled by batch).
pub open spec fn patch_embed_read(s: Seq<Seq<usize>>, patch: usize, in_channels: usize, embed: usize) -> u64 {
    if s.len() == 0 || s[0].len() < 4 || patch == 0 {
        0
    } else {
        let a = s[0];
        let weights = sat_mul_usize(sat_mul_usize(sat_mul_usize(in_channels, patch), patch), embed) as u64;
        let p = patch as u64;
        let patches = sat_mul((a[2] as u64) / p, (a[3] as u64) / p);
        let pos = sat_mul(sat_add(patches, 1), embed as u64);
        sat_add(sat_add(sat_add(total_elements(s), weights), pos), embed as u64)
    }
}

/// Bytes an operation reads from HBM for the given input shapes.
pub open spec fn hbm_read_rule(op: Op, s: Seq<Seq<usize>>, dtype: DType) -> u64 {
    let ie = total_elements(s);
    match op {
        Op::Linear { out_features, bias } =>
            if s.len() == 0 {
                0
            } else {
                let w = sat_mul(spec_last_dim(s[0]), out_features as u64);
                let b: u64 = if bias { out_features as u64 } else { 0 };
                dtype.spec_bytes_for(sat_add(sat_add(ie, w), b))
            },
        Op::LayerNorm { .. } =>
            if s.len() == 0 { 0 } else { dtype.spec_bytes_for(sat_add(ie, sat_mul(2, spec_last_dim(s[0])))) },
        Op::PatchEmbed { patch_size, in_channels, embed_dim } =>
            if s.len() == 0 || s[0].len() < 4 || patch_size == 0 {
                0
            } else {
                dtype.spec_bytes_for(patch_embed_read(s, patch_size, in_channels, embed_dim))
            },
        Op::FusedAttentionBlock { num_heads, head_dim, hidden_dim, has_bias } =>
            dtype.spec_bytes_for(sat_add(ie, attention_params(num_heads as u64, head_dim as u64, hidden_dim as u64, has_bias))),
        Op::FusedFfnBlock { hidden_dim, intermediate_dim, has_bias, .. } =>
            dtype.spec_bytes_for(sat_add(ie, ffn_params(hidden_dim as u64, intermediate_dim as u64, has_bias))),
        Op::FusedTransformerLayer { num_heads, head_dim, hidden_dim, intermediate_dim, has_bias, .. } =>
            dtype.spec_bytes_for(sat_add(ie, transformer_params(num_heads as u64, head_dim as u64,
                hidden_dim as u64, intermediate_dim as u64, has_bias))),
        Op::Concat { .. } => total_bytes(s, dtype),
        _ => dtype.spec_bytes_for(ie),
    }
}

/// Bytes an operation writes to HBM: nothing for the zero-copy layout
/// operations, otherwise all of its outputs.
pub open spec fn hbm_write_rule(op: Op, s: Seq<Seq<usize>>, dtype: DType) -> u64 {
    match op {
        Op::Reshape { .. } | Op::Transpose { .. } | Op::Split { .. } | Op::Concat { .. } => 0,
        _ => dtype.spec_bytes_for(total_elements(s)),
    }
}

fn sum_elements(shapes: &[&[usize]]) -> (r: u64)
    ensures
        r == total_elements(shapes_view(shapes)),
{
    let ghost sv = shapes_view(shapes);
    let mut acc: u64 = 0;
    let mut i: usize = 0;
    while i < shapes.len()
        invariant
            sv == shapes_view(shapes),
            sv.len() == shapes@.len(),
            i <= sv.len(),
            acc == total_elements(sv.subrange(0, i as int)),
        decreases sv.len() - i,
    {
        proof {
            assert(sv.subrange(0, i + 1).drop_last() =~= sv.subrange(0, i as int));
            assert(shapes@[i as int]@ == sv[i as int]);
        }
        acc = add_sat(acc, elements_saturating(shapes[i]));
        i = i + 1;
    }
    proof {
        assert(sv.subrange(0, sv.len() as int) =~= sv);
    }
    acc
}

fn sum_bytes(shapes: &[&[usize]], dtype: DType) -> (r: u64)
    ensures
        r == total_bytes(shapes_view(shapes), dtype),
{
    let ghost sv = shapes_view(shapes);
    let mut acc: u64 = 0;
    let mut i: usize = 0;
    while i < shapes.len()
        invariant
            sv == shapes_view(shapes),
            sv.len() == shapes@.len(),
            i <= sv.len(),
            acc == total_bytes(sv.subrange(0, i as int), dtype),
        decreases sv.len() - i,
    {
        proof {
            assert(sv.subrange(0, i + 1).drop_last() =~= sv.subrange(0, i as int));
            assert(shapes@[i as int]@ == sv[i as int]);
        }
        acc = add_sat(acc, dtype.byte_size_for_elements(elements_saturating(shapes[i])));
        i = i + 1;
    }
    proof {
        assert(sv.subrange(0, sv.len() as int) =~= sv);
    }
    acc
}

fn attention_param_elems(heads: u64, head_dim: u64, hidden: u64, bias: bool) -> (r: u64)
    ensures
        r == attention_params(heads, head_dim, hidden, bias),
{
    let qkv_width = mul_sat(mul_sat(3, heads), head_dim);
    let qkv = mul_sat(hidden, qkv_width);
    let out = mul_sat(mul_sat(heads, head_dim), hidden);
    let ln = mul_sat(2, hidden);
    let b = if bias { add_sat(qkv_width, hidden) } else { 0 };
    add_sat(add_sat(add_sat(qkv, out), ln), b)
}

fn ffn_param_elems(hidden: u64, inter: u64, bias: bool) -> (r: u64)
    ensures
        r == ffn_params(hidden, inter, bias),
{
    let up = mul_sat(hidden, inter);
    let down = mul_sat(inter, hidden);
    let ln = mul_sat(2, hidden);
    let b = if bias { add_sat(inter, hidden) } else { 0 };
    add_sat(add_sat(add_sat(up, down), ln), b)
}

fn transformer_param_elems(heads: u64, head_dim: u64, hidden: u64, inter: u64, bias: bool) -> (r: u64)
    ensures
        r == transformer_params(heads, head_dim, hidden, inter, bias),
{
    let qkv_width = mul_sat(mul_sat(3, heads), head_dim);
    let qkv = mul_sat(hidden, qkv_width);
    let out = mul_sat(mul_sat(heads, head_dim), hidden);
    let up = mul_sat(hidden, inter);
    let down = mul_sat(inter, hidden);
    let ln = mul_sat(4, hidden);
    let b = if bias { add_sat(add_sat(add_sat(qkv_width, hidden), inter), hidden) } else { 0 };
    add_sat(add_sat(add_sat(add_sat(add_sat(qkv, out), up), down), ln), b)
}

fn patch_embed_bytes(shapes: &[&[usize]], patch: usize, in_channels: usize, embed: usize) -> (r: u64)
    ensures
        r == patch_embed_read(shapes_view(shapes), patch, in_channels, embed),
{
    if shapes.len() == 0 || shapes[0].len() < 4 || patch == 0 {
        return 0;
    }
    let a = shapes[0];
    let weights = mul_sat_usize(mul_sat_usize(mul_sat_usize(in_channels, patch), patch), embed) as u64;
    let p = patch as u64;
    let patches = mul_sat(a[2] as u64 / p, a[3] as u64 / p);
    let pos = mul_sat(add_sat(patches, 1), embed as u64);
    add_sat(add_sat(add_sat(sum_elements(shapes), weights), pos), embed as u64)
}

impl Op {
    /// Calculate estimated read bytes from HBM.
    pub fn hbm_bytes_read(&self, input_shapes: &[&[usize]], dtype: DType) -> (r: u64)
        ensures
            r == hbm_read_rule(*self, shapes_view(input_shapes), dtype),
    {
        let ie = sum_elements(input_shapes);
        match self {
            Op::Linear { out_features, bias } => {
                if input_shapes.len() == 0 {
                    return 0;
                }
                let w = mul_sat(last_dim(input_shapes[0]), *out_features as u64);
                let b: u64 = if *bias { *out_features as u64 } else { 0 };
                dtype.byte_size_for_elements(add_sat(add_sat(ie, w), b))
            },
            Op::LayerNorm { .. } => {
                if input_shapes.len() == 0 {
                    return 0;
                }
                dtype.byte_size_for_elements(add_sat(ie, mul_sat(2, last_dim(input_shapes[0]))))
            },
            Op::PatchEmbed { patch_size, in_channels, embed_dim } => {
                if input_shapes.len() == 0 || input_shapes[0].len() < 4 || *patch_size == 0 {
                    return 0;
                }
                dtype.byte_size_for_elements(patch_embed_bytes(input_shapes, *patch_size, *in_channels, *embed_dim))
            },
            Op::FusedAttentionBlock { num_heads, head_dim, hidden_dim, has_bias } =>
                dtype.byte_size_for_elements(add_sat(ie, attention_param_elems(
                    *num_heads as u64, *head_dim as u64, *hidden_dim as u64, *has_bias))),
            Op::FusedFfnBlock { hidden_dim, intermediate_dim, has_bias, .. } =>
                dtype.byte_size_for_elements(add_sat(ie, ffn_param_elems(
                    *hidden_dim as u64, *intermediate_dim as u64, *has_bias))),
            Op::FusedTransformerLayer { num_heads, head_dim, hidden_dim, intermediate_dim, has_bias, .. } =>
                dtype.byte_size_for_elements(add_sat(ie, transformer_param_elems(
                    *num_heads as u64, *head_dim as u64, *hidden_dim as u64, *intermediate_dim as u64, *has_bias))),
            Op::Concat { .. } => sum_bytes(input_shapes, dtype),
            _ => dtype.byte_size_for_elements(ie),
        }
    }

    /// Calculate estimated written bytes to HBM.
    pub fn hbm_bytes_written(&self, output_shapes: &[&[usize]], dtype: DType) -> (r: u64)
        ensures
            r == hbm_write_rule(*self, shapes_view(output_shapes), dtype),
    {
        match self {
            Op::Reshape { .. } | Op::Transpose { .. } | Op::Split { .. } | Op::Concat { .. } => 0,
            _ => dtype.byte_size_for_elements(sum_elements(output_shapes)),
        }
    }
}

/// Patch embedding reads its weights and its position and class
/// embeddings once, whatever the batch: with no saturation, a batch of
/// `n2` images reads `(n2 - n1) * c * h * w` elements more than a batch of
/// `n1`.
pub proof fn lemma_patch_embed_read_per_batch(
    n1: usize,
    n2: usize,
    c: usize,
    h: usize,
    w: usize,
    patch: usize,
    in_channels: usize,
    embed: usize,
)
    requires
        patch > 0,
        n1 <= n2,
        patch_embed_read(seq![seq![n2, c, h, w]], patch, in_channels, embed) < u64::MAX,
    ensures
        patch_embed_read(seq![seq![n2, c, h, w]], patch, in_channels, embed)
            == patch_embed_read(seq![seq![n1, c, h, w]], patch, in_channels, embed) + (n2 - n1) * c * h * w,
{
    let s1 = seq![seq![n1, c, h, w]];
    let s2 = seq![seq![n2, c, h, w]];
    assert(s1.drop_last() =~= Seq::<Seq<usize>>::empty());
    assert(s2.drop_last() =~= Seq::<Seq<usize>>::empty());
    assert(s1.last() == seq![n1, c, h, w]);
    assert(s2.last() == seq![n2, c, h, w]);
    assert(total_elements(Seq::<Seq<usize>>::empty()) == 0);
    assert(total_elements(s1) == elements(seq![n1, c, h, w]));
    assert(total_elements(s2) == elements(seq![n2, c, h, w]));
    lemma_elements_clip4(n1, c, h, w);
    lemma_elements_clip4(n2, c, h, w);
    assert(n1 * c * h * w <= n2 * c * h * w) by (nonlinear_arith)
        requires
            n1 <= n2,
    ;
    assert(0 <= n1 * c * h * w) by (nonlinear_arith);
    assert(n2 * c * h * w - n1 * c * h * w == (n2 - n1) * c * h * w) by (nonlinear_arith);
}

/// The bytes patch embedding reads grow by one image's worth per image in
/// the batch, with no saturation and an element type of whole bytes.
pub proof fn lemma_patch_embed_bytes_per_batch(
    dtype: DType,
    n1: usize,
    n2: usize,
    c: usize,
    h: usize,
    w: usize,
    patch: usize,
    in_channels: usize,
    embed: usize,
)
    requires
        !(dtype is Int4),
        patch > 0,
        n1 <= n2,
        hbm_read_rule(Op::PatchEmbed { patch_size: patch, in_channels, embed_dim: embed },
            seq![seq![n2, c, h, w]], dtype) < u64::MAX,
    ensures
        hbm_read_rule(Op::PatchEmbed { patch_size: patch, in_channels, embed_dim: embed }, seq![seq![n2, c, h, w]], dtype)
            == hbm_read_rule(Op::PatchEmbed { patch_size: patch, in_channels, embed_dim: embed },
                seq![seq![n1, c, h, w]], dtype) + dtype.spec_byte_size() * ((n2 - n1) * c * h * w),
{
    let r1 = patch_embed_read(seq![seq![n1, c, h, w]], patch, in_channels, embed);
    let r2 = patch_embed_read(seq![seq![n2, c, h, w]], patch, in_channels, embed);
    let sz = dtype.spec_byte_size() as u64;
    assert(seq![seq![n2, c, h, w]][0].len() == 4);
    assert(seq![seq![n1, c, h, w]][0].len() == 4);
    assert(sz >= 1);
    if r2 == u64::MAX {
        assert(r2 * sz >= u64::MAX) by (nonlinear_arith)
            requires
                sz >= 1,
                r2 == u64::MAX,
        ;
    }
    lemma_patch_embed_read_per_batch(n1, n2, c, h, w, patch, in_channels, embed);
    assert(r1 * sz <= r2 * sz) by (nonlinear_arith)
        requires
            r1 <= r2,
    ;
    assert(r2 * sz == r1 * sz + sz * ((n2 - n1) * c * h * w)) by (nonlinear_arith)
        requires
            r2 == r1 + (n2 - n1) * c * h * w,
    ;
}

/// A fused transformer layer reads what a fused attention block and a
/// fused FFN block with the same sizes read, less one read of the
/// activations: with no saturation and an element type of whole bytes.
pub proof fn lemma_transformer_read_split(
    s: Seq<Seq<usize>>,
    dtype: DType,
    num_heads: usize,
    head_dim: usize,
    hidden_dim: usize,
    intermediate_dim: usize,
    activation: Activation,
    has_bias: bool,
)
    requires
        !(dtype is Int4),
        hbm_read_rule(Op::FusedTransformerLayer { num_heads, head_dim, hidden_dim, intermediate_dim, activation, has_bias },
            s, dtype) < u64::MAX,
    ensures
        hbm_read_rule(Op::FusedTransformerLayer { num_heads, head_dim, hidden_dim, intermediate_dim, activation, has_bias },
            s, dtype) + dtype.spec_bytes_for(total_elements(s))
            == hbm_read_rule(Op::FusedAttentionBlock { num_heads, head_dim, hidden_dim, has_bias }, s, dtype)
                + hbm_read_rule(Op::FusedFfnBlock { hidden_dim, intermediate_dim, activation, has_bias }, s, dtype),
{
    let ie = total_elements(s);
    let nh = num_heads as u64;
    let hd = head_dim as u64;
    let h = hidden_dim as u64;
    let i = intermediate_dim as u64;
    let t = transformer_params(nh, hd, h, i, has_bias);
    let a = attention_params(nh, hd, h, has_bias);
    let f = ffn_params(h, i, has_bias);
    let sz = dtype.spec_byte_size() as u64;
    assert(sz >= 1);
    let x = sat_add(ie, t);
    if x == u64::MAX {
        assert(x * sz >= u64::MAX) by (nonlinear_arith)
            requires
                sz >= 1,
                x == u64::MAX,
        ;
    }
    assert(x * sz < u64::MAX);
    assert(ie + t < u64::MAX);
    assert(t == a + f);
    assert((ie + a) * sz <= (ie + t) * sz && (ie + f) * sz <= (ie + t) * sz && ie * sz <= (ie + t) * sz) by (nonlinear_arith)
        requires
            a <= t,
            f <= t,
    ;
    assert((ie + t) * sz + ie * sz == (ie + a) * sz + (ie + f) * sz) by (nonlinear_arith)
        requires
            t == a + f,
    ;
}

proof fn lemma_attention_params_exact(nh: u64, hd: u64, h: u64, bias: bool)
    ensures
        attention_params(nh, hd, h, bias) == clip(h * (3 * nh * hd) + nh * hd * h + 2 * h
            + if bias { 3 * nh * hd + h } else { 0 }),
{
    assert(clip(3) == 3 && clip(2) == 2 && clip(h as int) == h && clip(hd as int) == hd);
    assert(3 * nh >= 0 && 3 * nh * hd >= 0 && nh * hd >= 0 && h * (3 * nh * hd) >= 0 && nh * hd * h >= 0)
        by (nonlinear_arith);
    lemma_sat_mul_clip(3, nh);
    lemma_sat_mul_clip(3 * nh, hd);
    lemma_sat_mul_clip2(h as int, 3 * nh * hd);
    lemma_sat_mul_clip(nh as int, hd);
    lemma_sat_mul_clip(nh * hd, h);
    lemma_sat_mul_clip(2, h);
    lemma_sat_add_clip(3 * nh * hd, h as int);
    lemma_sat_add_clip(h * (3 * nh * hd), nh * hd * h);
    lemma_sat_add_clip(h * (3 * nh * hd) + nh * hd * h, 2 * h);
    assert(clip(0) == 0);
    lemma_sat_add_clip(h * (3 * nh * hd) + nh * hd * h + 2 * h, if bias { 3 * nh * hd + h } else { 0 });
}

proof fn lemma_ffn_params_exact(h: u64, i: u64, bias: bool)
    ensures
        ffn_params(h, i, bias) == clip(h * i + i * h + 2 * h + if bias { i + h } else { 0 }),
{
    assert(clip(2) == 2 && clip(h as int) == h && clip(i as int) == i && clip(0) == 0);
    assert(h * i >= 0 && i * h >= 0) by (nonlinear_arith);
    lemma_sat_mul_clip(h as int, i);
    lemma_sat_mul_clip(i as int, h);
    lemma_sat_mul_clip(2, h);
    lemma_sat_add_clip(i as int, h as int);
    lemma_sat_add_clip(h * i, i * h);
    lemma_sat_add_clip(h * i + i * h, 2 * h);
    lemma_sat_add_clip(h * i + i * h + 2 * h, if bias { i + h } else { 0 });
}

proof fn lemma_transformer_params_exact(nh: u64, hd: u64, h: u64, i: u64, bias: bool)
    ensures
        transformer_params(nh, hd, h, i, bias) == clip(h * (3 * nh * hd) + nh * hd * h + h * i + i * h + 4 * h
            + if bias { 3 * nh * hd + h + i + h } else { 0 }),
{
    assert(clip(3) == 3 && clip(4) == 4 && clip(h as int) == h && clip(hd as int) == hd && clip(i as int) == i
        && clip(0) == 0);
    assert(3 * nh >= 0 && 3 * nh * hd >= 0 && nh * hd >= 0 && h * (3 * nh * hd) >= 0 && nh * hd * h >= 0
        && h * i >= 0 && i * h >= 0) by (nonlinear_arith);
    lemma_sat_mul_clip(3, nh);
    lemma_sat_mul_clip(3 * nh, hd);
    lemma_sat_mul_clip2(h as int, 3 * nh * hd);
    lemma_sat_mul_clip(nh as int, hd);
    lemma_sat_mul_clip(nh * hd, h);
    lemma_sat_mul_clip(h as int, i);
    lemma_sat_mul_clip(i as int, h);
    lemma_sat_mul_clip(4, h);
    lemma_sat_add_clip(3 * nh * hd, h as int);
    lemma_sat_add_clip(3 * nh * hd + h, i as int);
    lemma_sat_add_clip(3 * nh * hd + h + i, h as int);
    let a = h * (3 * nh * hd);
    let o = nh * hd * h;
    lemma_sat_add_clip(a, o);
    lemma_sat_add_clip(a + o, h * i);
    lemma_sat_add_clip(a + o + h * i, i * h);
    lemma_sat_add_clip(a + o + h * i + i * h, 4 * h);
    lemma_sat_add_clip(a + o + h * i + i * h + 4 * h, if bias { 3 * nh * hd + h + i + h } else { 0 });
}

/// With no saturation, a fused attention block reads its input and its
/// parameters: the QKV weights `h·3·nh·hd`, the output projection weights
/// `nh·hd·h`, the layer norm's `2h`, and with biases `3·nh·hd + h`.
pub proof fn lemma_attention_read_law(s: Seq<Seq<usize>>, dtype: DType, num_heads: usize, head_dim: usize,
    hidden_dim: usize, has_bias: bool)
    requires
        ({
            let (nh, hd, h) = (num_heads as int, head_dim as int, hidden_dim as int);
            total_elements(s) + h * (3 * nh * hd) + nh * hd * h + 2 * h
                + (if has_bias { 3 * nh * hd + h } else { 0 }) <= u64::MAX
        }),
    ensures
        ({
            let (nh, hd, h) = (num_heads as int, head_dim as int, hidden_dim as int);
            hbm_read_rule(Op::FusedAttentionBlock { num_heads, head_dim, hidden_dim, has_bias }, s, dtype)
                == dtype.spec_bytes_for((total_elements(s) + h * (3 * nh * hd) + nh * hd * h + 2 * h
                    + (if has_bias { 3 * nh * hd + h } else { 0 })) as u64)
        }),
{
    lemma_attention_params_exact(num_heads as u64, head_dim as u64, hidden_dim as u64, has_bias);
}

/// With no saturation, a fused FFN block reads its input and its
/// parameters: the up and down projection weights `h·i` each, the layer
/// norm's `2h`, and with biases `i + h`.
pub proof fn lemma_ffn_read_law(s: Seq<Seq<usize>>, dtype: DType, hidden_dim: usize, intermediate_dim: usize,
    activation: Activation, has_bias: bool)
    requires
        ({
            let (h, i) = (hidden_dim as int, intermediate_dim as int);
            total_elements(s) + h * i + i * h + 2 * h + (if has_bias { i + h } else { 0 }) <= u64::MAX
        }),
    ensures
        ({
            let (h, i) = (hidden_dim as int, intermediate_dim as int);
            hbm_read_rule(Op::FusedFfnBlock { hidden_dim, intermediate_dim, activation, has_bias }, s, dtype)
                == dtype.spec_bytes_for((total_elements(s) + h * i + i * h + 2 * h
                    + (if has_bias { i + h } else { 0 })) as u64)
        }),
{
    lemma_ffn_params_exact(hidden_dim as u64, intermediate_dim as u64, has_bias);
}

/// With no saturation, a fused transformer layer reads its input once and
/// the parameters of both blocks: QKV `h·3·nh·hd`, output projection
/// `nh·hd·h`, up and down projections `h·i` each, two layer norms `4h`,
/// and with biases `3·nh·hd + h + i + h`.
pub proof fn lemma_transformer_read_law(s: Seq<Seq<usize>>, dtype: DType, num_heads: usize, head_dim: usize,
    hidden_dim: usize, intermediate_dim: usize, activation: Activation, has_bias: bool)
    requires
        ({
            let (nh, hd, h, i) = (num_heads as int, head_dim as int, hidden_dim as int, intermediate_dim as int);
            total_elements(s) + h * (3 * nh * hd) + nh * hd * h + h * i + i * h + 4 * h
                + (if has_bias { 3 * nh * hd + h + i + h } else { 0 }) <= u64::MAX
        }),
    ensures
        ({
            let (nh, hd, h, i) = (num_heads as int, head_dim as int, hidden_dim as int, intermediate_dim as int);
            hbm_read_rule(Op::FusedTransformerLayer { num_heads, head_dim, hidden_dim, intermediate_dim, activation, has_bias },
                s, dtype)
                == dtype.spec_bytes_for((total_elements(s) + h * (3 * nh * hd) + nh * hd * h + h * i + i * h + 4 * h
                    + (if has_bias { 3 * nh * hd + h + i + h } else { 0 })) as u64)
        }),
{
    lemma_transformer_params_exact(num_heads as u64, head_dim as u64, hidden_dim as u64, intermediate_dim as u64,
        has_bias);
}

} // verus!
