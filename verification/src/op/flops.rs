//! Floating-point operation counts per operation.
//!
//! Every count saturates at `u64::MAX` instead of overflowing.

use vstd::prelude::*;
use crate::arith::{clip, elements, lemma_sat_add_clip, lemma_sat_mul_clip, lemma_sat_mul_clip2, sat_add, sat_mul, sat_mul_usize, add_sat, mul_sat, mul_sat_usize};
use crate::op::{Activation, Op, shapes_view, spec_last_dim, last_dim};

verus! {

/// Saturating element count of a shape (`1` for the empty shape).
pub fn elements_saturating(shape: &[usize]) -> (r: u64)
    ensures
        r == elements(shape@),
{
    let mut acc: u64 = 1;
    let mut i: usize = 0;
    while i < shape.len()
        invariant
            i <= shape@.len(),
            acc == elements(shape@.subrange(0, i as int)),
        decreases shape@.len() - i,
    {
        proof {
            assert(shape@.subrange(0, i + 1).drop_last() =~= shape@.subrange(0, i as int));
        }
        acc = mul_sat(acc, shape[i] as u64);
        i = i + 1;
    }
    proof {
        assert(shape@.subrange(0, shape@.len() as int) =~= shape@);
    }
    acc
}

/// Product of the leading (batch) dimensions, all but the last two,
/// saturating and at least 1.
pub open spec fn batch_of(a: Seq<usize>) -> u64 {
    let p = elements(a.subrange(0, a.len() - 2));
    if p == 0 { 1 } else { p }
}

fn batch_dims(a: &[usize]) -> (r: u64)
    requires
        a@.len() >= 2,
    ensures
        r == batch_of(a@),
{
    let mut acc: u64 = 1;
    let mut i: usize = 0;
    while i < a.len() - 2
        invariant
            a@.len() >= 2,
            i <= a@.len() - 2,
            acc == elements(a@.subrange(0, i as int)),
        decreases a@.len() - 2 - i,
    {
        proof {
            assert(a@.subrange(0, i + 1).drop_last() =~= a@.subrange(0, i as int));
        }
        acc = mul_sat(acc, a[i] as u64);
        i = i + 1;
    }
    if acc == 0 { 1 } else { acc }
}

/// `2 * batch * m * k * n` for `[.., m, k] @ [.., k, n]`.
pub open spec fn matmul_flops(s: Seq<Seq<usize>>) -> u64 {
    if s.len() < 2 || s[0].len() < 2 || s[1].len() < 2 {
        0
    } else {
        let a = s[0];
        let m = a[a.len() - 2] as u64;
        sat_mul(sat_mul(sat_mul(sat_mul(batch_of(a), m), spec_last_dim(a)), spec_last_dim(s[1])), 2)
    }
}

/// `2 * rows * in * out`, plus `rows * out` for the bias.
pub open spec fn linear_flops(s: Seq<Seq<usize>>, out_features: usize, bias: bool) -> u64 {
    if s.len() == 0 || s[0].len() == 0 {
        0
    } else {
        let rows = elements(s[0].drop_last());
        let prod = sat_mul(sat_mul(sat_mul(2, rows), spec_last_dim(s[0])), out_features as u64);
        if bias { sat_add(prod, sat_mul(rows, out_features as u64)) } else { prod }
    }
}

/// `2 * batch * patches * (channels * patch^2) * embed_dim`.
pub open spec fn patch_embed_flops(s: Seq<Seq<usize>>, patch: usize, in_channels: usize, embed: usize) -> u64 {
    if s.len() == 0 || s[0].len() < 4 || patch == 0 {
        0
    } else {
        let a = s[0];
        let p = patch as u64;
        let patches = sat_mul((a[2] as u64) / p, (a[3] as u64) / p);
        let kernel = sat_mul_usize(sat_mul_usize(in_channels, patch), patch) as u64;
        sat_mul(sat_mul(sat_mul(sat_mul(a[0] as u64, patches), kernel), embed as u64), 2)
    }
}

/// Product of four factors, saturating left to right.
pub open spec fn prod4(a: u64, b: u64, c: u64, d: u64) -> u64 {
    sat_mul(sat_mul(sat_mul(a, b), c), d)
}

/// Sequence length (second to last dim) and batch of a fused block input.
pub open spec fn seq_and_batch(a: Seq<usize>) -> (u64, u64) {
    (a[a.len() - 2] as u64, batch_of(a))
}

/// Attention block FLOPs: layer norm, QKV projection, scores, softmax,
/// context, output projection, residual, and bias adds.
pub open spec fn attention_flops(s: Seq<Seq<usize>>, heads: usize, head_dim: usize, hidden: usize, bias: bool) -> u64 {
    if s.len() == 0 || s[0].len() < 2 {
        0
    } else {
        let (sl, b) = seq_and_batch(s[0]);
        let h = hidden as u64;
        let nh = heads as u64;
        let hd = head_dim as u64;
        let qkv = sat_mul(sat_mul(3, nh), hd);
        let t1 = prod4(5, b, sl, h);
        let t2 = sat_mul(prod4(2, b, sl, h), qkv);
        let t3 = sat_mul(prod4(2, b, nh, sl), sat_mul(sl, hd));
        let t4 = prod4(5, b, nh, sl);
        let t4b = sat_mul(t4, sl);
        let t6 = sat_mul(sat_mul(sat_mul(sat_mul(2, b), sl), sat_mul(nh, hd)), h);
        let t7 = sat_mul(sat_mul(b, sl), h);
        let total = sat_add(sat_add(sat_add(sat_add(sat_add(sat_add(t1, t2), t3), t4b), t3), t6), t7);
        if bias {
            sat_add(total, sat_mul(sat_mul(b, sl), sat_add(qkv, h)))
        } else {
            total
        }
    }
}

/// FFN block FLOPs: layer norm, up projection, activation, down
/// projection, residual, and bias adds.
pub open spec fn ffn_flops(s: Seq<Seq<usize>>, hidden: usize, inter: usize, act: Activation, bias: bool) -> u64 {
    if s.len() == 0 || s[0].len() < 2 {
        0
    } else {
        let (sl, b) = seq_and_batch(s[0]);
        let h = hidden as u64;
        let i = inter as u64;
        let t1 = prod4(5, b, sl, h);
        let t2 = sat_mul(prod4(2, b, sl, h), i);
        let a = match act {
            Activation::Gelu | Activation::Silu => prod4(8, b, sl, i),
            Activation::Relu => sat_mul(sat_mul(b, sl), i),
        };
        let t4 = sat_mul(prod4(2, b, sl, i), h);
        let t5 = sat_mul(sat_mul(b, sl), h);
        let total = sat_add(sat_add(sat_add(sat_add(t1, t2), a), t4), t5);
        if bias {
            sat_add(total, sat_mul(sat_mul(b, sl), sat_add(i, h)))
        } else {
            total
        }
    }
}

/// With no saturation, a fused attention block on input `[.., s, h]` with
/// batch `b` costs `5bsh` (layer norm) `+ 2bsh(3·nh·hd)` (QKV projection)
/// `+ 2·(2·b·nh·s²·hd)` (scores Q·Kᵀ and context attn·V) `+ 5·b·nh·s²`
/// (softmax) `+ 2bs(nh·hd)h` (output projection) `+ bsh` (residual), and
/// with biases `+ bs(3·nh·hd + h)`.
pub proof fn lemma_attention_flops_law(
    s: Seq<Seq<usize>>,
    outs: Seq<Seq<usize>>,
    num_heads: usize,
    head_dim: usize,
    hidden_dim: usize,
    has_bias: bool,
)
    requires
        s.len() > 0,
        s[0].len() >= 2,
        ({
            let b = batch_of(s[0]) as int;
            let sl = s[0][s[0].len() - 2] as int;
            let h = hidden_dim as int;
            let nh = num_heads as int;
            let hd = head_dim as int;
            5 * b * sl * h + 2 * b * sl * h * (3 * nh * hd) + 2 * (2 * b * nh * sl * (sl * hd))
                + 5 * b * nh * sl * sl + 2 * b * sl * (nh * hd) * h + b * sl * h
                + (if has_bias { b * sl * (3 * nh * hd + h) } else { 0 }) <= u64::MAX
        }),
    ensures
        ({
            let b = batch_of(s[0]) as int;
            let sl = s[0][s[0].len() - 2] as int;
            let h = hidden_dim as int;
            let nh = num_heads as int;
            let hd = head_dim as int;
            flops_rule(Op::FusedAttentionBlock { num_heads, head_dim, hidden_dim, has_bias }, s, outs)
                == 5 * b * sl * h + 2 * b * sl * h * (3 * nh * hd) + 2 * (2 * b * nh * sl * (sl * hd))
                + 5 * b * nh * sl * sl + 2 * b * sl * (nh * hd) * h + b * sl * h
                + (if has_bias { b * sl * (3 * nh * hd + h) } else { 0 })
        }),
{
    let (slu, bu) = seq_and_batch(s[0]);
    let b = bu as int;
    let sl = slu as int;
    let h = hidden_dim as int;
    let nh = num_heads as int;
    let hd = head_dim as int;
    assert(clip(5) == 5 && clip(2) == 2 && clip(3) == 3);
    assert(clip(b) == bu && clip(sl) == slu && clip(h) == hidden_dim as u64 && clip(nh) == num_heads as u64
        && clip(hd) == head_dim as u64);
    assert(5 * b >= 0 && 2 * b >= 0 && 3 * nh >= 0) by (nonlinear_arith)
        requires b >= 0, nh >= 0;
    assert(5 * b * sl >= 0 && 2 * b * sl >= 0 && 2 * b * nh >= 0 && 5 * b * nh >= 0 && b * sl >= 0
        && 3 * nh * hd >= 0 && sl * hd >= 0 && nh * hd >= 0) by (nonlinear_arith)
        requires b >= 0, sl >= 0, nh >= 0, hd >= 0;
    assert(5 * b * sl * h >= 0 && 2 * b * sl * h >= 0 && 2 * b * nh * sl >= 0 && 5 * b * nh * sl >= 0
        && b * sl * h >= 0 && 2 * b * sl * (nh * hd) >= 0) by (nonlinear_arith)
        requires b >= 0, sl >= 0, nh >= 0, hd >= 0, h >= 0;
    let qkv = 3 * nh * hd;
    // layer norm
    lemma_sat_mul_clip(5, bu);
    lemma_sat_mul_clip(5 * b, slu);
    lemma_sat_mul_clip(5 * b * sl, hidden_dim as u64);
    // qkv width
    lemma_sat_mul_clip(3, num_heads as u64);
    lemma_sat_mul_clip(3 * nh, head_dim as u64);
    // projections
    lemma_sat_mul_clip(2, bu);
    lemma_sat_mul_clip(2 * b, slu);
    lemma_sat_mul_clip(2 * b * sl, hidden_dim as u64);
    lemma_sat_mul_clip2(2 * b * sl * h, qkv);
    // scores and context
    lemma_sat_mul_clip(2 * b, num_heads as u64);
    lemma_sat_mul_clip(2 * b * nh, slu);
    lemma_sat_mul_clip(sl, head_dim as u64);
    lemma_sat_mul_clip2(2 * b * nh * sl, sl * hd);
    // softmax
    lemma_sat_mul_clip(5, bu);
    lemma_sat_mul_clip(5 * b, num_heads as u64);
    lemma_sat_mul_clip(5 * b * nh, slu);
    lemma_sat_mul_clip(5 * b * nh * sl, slu);
    // output projection
    lemma_sat_mul_clip(nh, head_dim as u64);
    lemma_sat_mul_clip2(2 * b * sl, nh * hd);
    lemma_sat_mul_clip(2 * b * sl * (nh * hd), hidden_dim as u64);
    // residual
    lemma_sat_mul_clip(b, slu);
    lemma_sat_mul_clip(b * sl, hidden_dim as u64);
    let t1 = 5 * b * sl * h;
    let t2 = 2 * b * sl * h * qkv;
    let t3 = 2 * b * nh * sl * (sl * hd);
    let t4 = 5 * b * nh * sl * sl;
    let t6 = 2 * b * sl * (nh * hd) * h;
    let t7 = b * sl * h;
    assert(t2 >= 0 && t3 >= 0 && t4 >= 0 && t6 >= 0) by (nonlinear_arith)
        requires
            2 * b * sl * h >= 0, qkv >= 0, 2 * b * nh * sl >= 0, sl * hd >= 0, 5 * b * nh * sl >= 0, sl >= 0,
            2 * b * sl * (nh * hd) >= 0, h >= 0,
            t2 == 2 * b * sl * h * qkv, t3 == 2 * b * nh * sl * (sl * hd), t4 == 5 * b * nh * sl * sl,
            t6 == 2 * b * sl * (nh * hd) * h;
    lemma_sat_add_clip(t1, t2);
    lemma_sat_add_clip(t1 + t2, t3);
    lemma_sat_add_clip(t1 + t2 + t3, t4);
    lemma_sat_add_clip(t1 + t2 + t3 + t4, t3);
    lemma_sat_add_clip(t1 + t2 + t3 + t4 + t3, t6);
    lemma_sat_add_clip(t1 + t2 + t3 + t4 + t3 + t6, t7);
    lemma_sat_add_clip(qkv, h);
    assert(b * sl * (qkv + h) >= 0) by (nonlinear_arith)
        requires b * sl >= 0, qkv >= 0, h >= 0;
    lemma_sat_mul_clip2(b * sl, qkv + h);
    lemma_sat_add_clip(t1 + t2 + t3 + t4 + t3 + t6 + t7, b * sl * (qkv + h));
    assert(2 * (2 * b * nh * sl * (sl * hd)) == t3 + t3);
}

/// FFN block FLOPs without saturation, for batch `b`, sequence length `sl`,
/// hidden size `h`, intermediate size `i` and `act` FLOPs per activated
/// element.
pub open spec fn ffn_flops_exact(b: int, sl: int, h: int, i: int, act: int, bias: bool) -> int {
    5 * b * sl * h + 2 * b * sl * h * i + act * b * sl * i + 2 * b * sl * i * h + b * sl * h
        + if bias { b * sl * (i + h) } else { 0 }
}

/// FLOPs per element of an activation inside a fused FFN block.
pub open spec fn ffn_activation_cost(act: Activation) -> int {
    match act {
        Activation::Gelu | Activation::Silu => 8,
        Activation::Relu => 1,
    }
}

/// The FFN block FLOP count is the exact count clamped at `u64::MAX`.
pub proof fn lemma_ffn_flops_clip(s: Seq<Seq<usize>>, hidden: usize, inter: usize, act: Activation, bias: bool)
    requires
        s.len() > 0,
        s[0].len() >= 2,
    ensures
        ffn_flops(s, hidden, inter, act, bias) == clip(ffn_flops_exact(seq_and_batch(s[0]).1 as int,
            seq_and_batch(s[0]).0 as int, hidden as int, inter as int, ffn_activation_cost(act), bias)),
{
    let (sl, b) = seq_and_batch(s[0]);
    let h = hidden as u64;
    let i = inter as u64;
    let c = ffn_activation_cost(act);
    assert(clip(5) == 5 && clip(2) == 2 && clip(8) == 8);
    assert(clip(b as int) == b && clip(sl as int) == sl && clip(h as int) == h && clip(i as int) == i);
    assert(5 * b * sl >= 0 && 2 * b * sl >= 0 && 8 * b * sl >= 0 && b * sl >= 0) by (nonlinear_arith);
    assert(5 * b * sl * h >= 0 && 2 * b * sl * h >= 0 && 2 * b * sl * i >= 0 && 8 * b * sl * i >= 0
        && b * sl * i >= 0 && b * sl * h >= 0) by (nonlinear_arith);
    assert(2 * b * sl * h * i >= 0 && 2 * b * sl * i * h >= 0 && b * sl * (i + h) >= 0) by (nonlinear_arith);
    lemma_sat_mul_clip(5, b);
    lemma_sat_mul_clip(5 * b, sl);
    lemma_sat_mul_clip(5 * b * sl, h);
    lemma_sat_mul_clip(2, b);
    lemma_sat_mul_clip(2 * b, sl);
    lemma_sat_mul_clip(2 * b * sl, h);
    lemma_sat_mul_clip(2 * b * sl * h, i);
    lemma_sat_mul_clip(2 * b * sl, i);
    lemma_sat_mul_clip(2 * b * sl * i, h);
    lemma_sat_mul_clip(8, b);
    lemma_sat_mul_clip(8 * b, sl);
    lemma_sat_mul_clip(8 * b * sl, i);
    lemma_sat_mul_clip(b as int, sl);
    lemma_sat_mul_clip(b * sl, i);
    lemma_sat_mul_clip(b * sl, h);
    lemma_sat_add_clip(i as int, h as int);
    lemma_sat_mul_clip2(b * sl, i + h);
    let t1 = 5 * b * sl * h;
    let t2 = 2 * b * sl * h * i;
    let a = c * b * sl * i;
    assert(a >= 0) by (nonlinear_arith)
        requires
            c >= 1,
            b * sl * i >= 0,
            a == c * b * sl * i,
    ;
    assert(act is Relu ==> a == b * sl * i) by (nonlinear_arith)
        requires
            act is Relu ==> c == 1,
            a == c * b * sl * i,
    ;
    assert(!(act is Relu) ==> a == 8 * b * sl * i) by (nonlinear_arith)
        requires
            !(act is Relu) ==> c == 8,
            a == c * b * sl * i,
    ;
    let t4 = 2 * b * sl * i * h;
    let t5 = b * sl * h;
    lemma_sat_add_clip(t1, t2);
    lemma_sat_add_clip(t1 + t2, a);
    lemma_sat_add_clip(t1 + t2 + a, t4);
    lemma_sat_add_clip(t1 + t2 + a + t4, t5);
    lemma_sat_add_clip(t1 + t2 + a + t4 + t5, b * sl * (i + h));
}

/// Gelu and Silu cost the fused FFN block the same, and each 7 FLOPs per
/// intermediate element more than Relu, when nothing saturates.
pub proof fn lemma_ffn_activation_flops(s: Seq<Seq<usize>>, hidden: usize, inter: usize, bias: bool)
    requires
        s.len() > 0,
        s[0].len() >= 2,
        ffn_flops_exact(seq_and_batch(s[0]).1 as int, seq_and_batch(s[0]).0 as int, hidden as int, inter as int,
            8, bias) <= u64::MAX,
    ensures
        ffn_flops(s, hidden, inter, Activation::Gelu, bias) == ffn_flops(s, hidden, inter, Activation::Silu, bias),
        ffn_flops(s, hidden, inter, Activation::Gelu, bias) == ffn_flops(s, hidden, inter, Activation::Relu, bias)
            + 7 * seq_and_batch(s[0]).1 * seq_and_batch(s[0]).0 * inter,
{
    let (sl, b) = seq_and_batch(s[0]);
    lemma_ffn_flops_clip(s, hidden, inter, Activation::Gelu, bias);
    lemma_ffn_flops_clip(s, hidden, inter, Activation::Relu, bias);
    let g = ffn_flops_exact(b as int, sl as int, hidden as int, inter as int, 8, bias);
    let r = ffn_flops_exact(b as int, sl as int, hidden as int, inter as int, 1, bias);
    assert(g == r + 7 * b * sl * inter) by (nonlinear_arith)
        requires
            g == ffn_flops_exact(b as int, sl as int, hidden as int, inter as int, 8, bias),
            r == ffn_flops_exact(b as int, sl as int, hidden as int, inter as int, 1, bias),
    ;
    assert(b * sl * inter >= 0) by (nonlinear_arith);
}

/// Elements of the first shape times a per-element cost; 0 when there is
/// no shape or the first shape has rank 0.
pub open spec fn per_element(s: Seq<Seq<usize>>, cost: u64) -> u64 {
    if s.len() == 0 || s[0].len() == 0 { 0 } else { sat_mul(cost, elements(s[0])) }
}

/// The FLOP count of an operation for the given input and output shapes.
pub open spec fn flops_rule(op: Op, ins: Seq<Seq<usize>>, outs: Seq<Seq<usize>>) -> u64 {
    match op {
        Op::MatMul => matmul_flops(ins),
        Op::Linear { out_features, bias } => linear_flops(ins, out_features, bias),
        Op::LayerNorm { .. } | Op::Softmax { .. } => per_element(ins, 5),
        Op::Gelu | Op::Silu => per_element(ins, 8),
        Op::Relu | Op::ScalarMul { .. } => per_element(ins, 1),
        Op::Add | Op::Mul => per_element(outs, 1),
        Op::Reshape { .. } | Op::Transpose { .. } | Op::Split { .. } | Op::Concat { .. } => 0,
        Op::PatchEmbed { patch_size, in_channels, embed_dim } =>
            patch_embed_flops(ins, patch_size, in_channels, embed_dim),
        Op::FusedAttentionBlock { num_heads, head_dim, hidden_dim, has_bias } =>
            attention_flops(ins, num_heads, head_dim, hidden_dim, has_bias),
        Op::FusedFfnBlock { hidden_dim, intermediate_dim, activation, has_bias } =>
            ffn_flops(ins, hidden_dim, intermediate_dim, activation, has_bias),
        Op::FusedTransformerLayer { num_heads, head_dim, hidden_dim, intermediate_dim, activation, has_bias } =>
            sat_add(
                attention_flops(ins, num_heads, head_dim, hidden_dim, has_bias),
                ffn_flops(ins, hidden_dim, intermediate_dim, activation, has_bias),
            ),
    }
}

fn per_element_flops(shapes: &[&[usize]], cost: u64) -> (r: u64)
    ensures
        r == per_element(shapes_view(shapes), cost),
{
    if shapes.len() == 0 || shapes[0].len() == 0 {
        0
    } else {
        mul_sat(cost, elements_saturating(shapes[0]))
    }
}

fn flops_matmul(shapes: &[&[usize]]) -> (r: u64)
    ensures
        r == matmul_flops(shapes_view(shapes)),
{
    if shapes.len() < 2 {
        return 0;
    }
    let a = shapes[0];
    let b = shapes[1];
    if a.len() < 2 || b.len() < 2 {
        return 0;
    }
    let m = a[a.len() - 2] as u64;
    let k = last_dim(a);
    let n = last_dim(b);
    let batch = batch_dims(a);
    let p = mul_sat(mul_sat(mul_sat(batch, m), k), n);
    mul_sat(p, 2)
}

fn flops_linear(shapes: &[&[usize]], out_features: usize, bias: bool) -> (r: u64)
    ensures
        r == linear_flops(shapes_view(shapes), out_features, bias),
{
    if shapes.len() == 0 {
        return 0;
    }
    let a = shapes[0];
    if a.len() == 0 {
        return 0;
    }
    let mut rows: u64 = 1;
    let mut i: usize = 0;
    while i < a.len() - 1
        invariant
            a@.len() >= 1,
            i <= a@.len() - 1,
            rows == elements(a@.subrange(0, i as int)),
        decreases a@.len() - 1 - i,
    {
        proof {
            assert(a@.subrange(0, i + 1).drop_last() =~= a@.subrange(0, i as int));
        }
        rows = mul_sat(rows, a[i] as u64);
        i = i + 1;
    }
    proof {
        assert(a@.subrange(0, a@.len() - 1) =~= a@.drop_last());
    }
    let in_features = last_dim(a);
    let mut total = mul_sat(mul_sat(mul_sat(2, rows), in_features), out_features as u64);
    if bias {
        total = add_sat(total, mul_sat(rows, out_features as u64));
    }
    total
}

fn flops_patch_embed(shapes: &[&[usize]], patch: usize, in_channels: usize, embed: usize) -> (r: u64)
    ensures
        r == patch_embed_flops(shapes_view(shapes), patch, in_channels, embed),
{
    if shapes.len() == 0 || shapes[0].len() < 4 || patch == 0 {
        return 0;
    }
    let a = shapes[0];
    let p = patch as u64;
    let patches = mul_sat(a[2] as u64 / p, a[3] as u64 / p);
    let kernel = mul_sat_usize(mul_sat_usize(in_channels, patch), patch) as u64;
    let prod = mul_sat(mul_sat(mul_sat(a[0] as u64, patches), kernel), embed as u64);
    mul_sat(prod, 2)
}

fn mul4(a: u64, b: u64, c: u64, d: u64) -> (r: u64)
    ensures
        r == prod4(a, b, c, d),
{
    mul_sat(mul_sat(mul_sat(a, b), c), d)
}

fn flops_fused_attention(shapes: &[&[usize]], heads: usize, head_dim: usize, hidden: usize, bias: bool) -> (r: u64)
    ensures
        r == attention_flops(shapes_view(shapes), heads, head_dim, hidden, bias),
{
    if shapes.len() == 0 || shapes[0].len() < 2 {
        return 0;
    }
    let a = shapes[0];
    let sl = a[a.len() - 2] as u64;
    let b = batch_dims(a);
    let h = hidden as u64;
    let nh = heads as u64;
    let hd = head_dim as u64;
    let qkv = mul_sat(mul_sat(3, nh), hd);
    let t3 = mul_sat(mul4(2, b, nh, sl), mul_sat(sl, hd));
    let mut total: u64 = mul4(5, b, sl, h);
    total = add_sat(total, mul_sat(mul4(2, b, sl, h), qkv));
    total = add_sat(total, t3);
    total = add_sat(total, mul_sat(mul4(5, b, nh, sl), sl));
    total = add_sat(total, t3);
    total = add_sat(total, mul_sat(mul_sat(mul_sat(mul_sat(2, b), sl), mul_sat(nh, hd)), h));
    total = add_sat(total, mul_sat(mul_sat(b, sl), h));
    if bias {
        total = add_sat(total, mul_sat(mul_sat(b, sl), add_sat(qkv, h)));
    }
    total
}

fn flops_fused_ffn(shapes: &[&[usize]], hidden: usize, inter: usize, act: Activation, bias: bool) -> (r: u64)
    ensures
        r == ffn_flops(shapes_view(shapes), hidden, inter, act, bias),
{
    if shapes.len() == 0 || shapes[0].len() < 2 {
        return 0;
    }
    let a = shapes[0];
    let sl = a[a.len() - 2] as u64;
    let b = batch_dims(a);
    let h = hidden as u64;
    let i = inter as u64;
    let mut total: u64 = mul4(5, b, sl, h);
    total = add_sat(total, mul_sat(mul4(2, b, sl, h), i));
    let act_flops = match act {
        Activation::Gelu | Activation::Silu => mul4(8, b, sl, i),
        Activation::Relu => mul_sat(mul_sat(b, sl), i),
    };
    total = add_sat(total, act_flops);
    total = add_sat(total, mul_sat(mul4(2, b, sl, i), h));
    total = add_sat(total, mul_sat(mul_sat(b, sl), h));
    if bias {
        total = add_sat(total, mul_sat(mul_sat(b, sl), add_sat(i, h)));
    }
    total
}

impl Op {
    /// Calculate estimated FLOPS.
    pub fn flops(&self, input_shapes: &[&[usize]], output_shapes: &[&[usize]]) -> (r: u64)
        ensures
            r == flops_rule(*self, shapes_view(input_shapes), shapes_view(output_shapes)),
    {
        match self {
            Op::MatMul => flops_matmul(input_shapes),
            Op::Linear { out_features, bias } => flops_linear(input_shapes, *out_features, *bias),
            Op::LayerNorm { .. } | Op::Softmax { .. } => per_element_flops(input_shapes, 5),
            Op::Gelu | Op::Silu => per_element_flops(input_shapes, 8),
            Op::Relu | Op::ScalarMul { .. } => per_element_flops(input_shapes, 1),
            Op::Add | Op::Mul => per_element_flops(output_shapes, 1),
            Op::Reshape { .. } | Op::Transpose { .. } | Op::Split { .. } | Op::Concat { .. } => 0,
            Op::PatchEmbed { patch_size, in_channels, embed_dim } =>
                flops_patch_embed(input_shapes, *patch_size, *in_channels, *embed_dim),
            Op::FusedAttentionBlock { num_heads, head_dim, hidden_dim, has_bias } =>
                flops_fused_attention(input_shapes, *num_heads, *head_dim, *hidden_dim, *has_bias),
            Op::FusedFfnBlock { hidden_dim, intermediate_dim, activation, has_bias } =>
                flops_fused_ffn(input_shapes, *hidden_dim, *intermediate_dim, *activation, *has_bias),
            Op::FusedTransformerLayer { num_heads, head_dim, hidden_dim, intermediate_dim, activation, has_bias } =>
                add_sat(
                    flops_fused_attention(input_shapes, *num_heads, *head_dim, *hidden_dim, *has_bias),
                    flops_fused_ffn(input_shapes, *hidden_dim, *intermediate_dim, *activation, *has_bias),
                ),
        }
    }
}

proof fn lemma_elements_single(x: usize)
    ensures
        elements(seq![x]) == x,
{
    let s1 = seq![x];
    assert(s1.drop_last() =~= Seq::<usize>::empty());
    assert(s1.last() == x);
    assert(elements(s1.drop_last()) == 1);
    assert(1 * (x as u64) == x);
}

/// Matrix multiplication counts a multiply and an add per term: `[b, m, k] @
/// [k, n]` costs exactly `2·b·m·k·n` FLOPs whenever that fits in a `u64`.
pub proof fn lemma_matmul_flops_exact(b: usize, m: usize, k: usize, n: usize)
    requires
        1 <= b,
        1 <= m,
        1 <= k,
        1 <= n,
        2 * b * m * k * n <= u64::MAX,
    ensures
        matmul_flops(seq![seq![b, m, k], seq![k, n]]) == 2 * b * m * k * n,
{
    let a = seq![b, m, k];
    assert(a.subrange(0, 1) =~= seq![b]);
    lemma_elements_single(b);
    let bm: int = b * m;
    let bmk: int = bm * k;
    let bmkn: int = bmk * n;
    assert(bm <= bmk && bmk <= bmkn && 2 * bmkn == 2 * b * m * k * n && bmkn >= 1) by (nonlinear_arith)
        requires
            b >= 1,
            m >= 1,
            k >= 1,
            n >= 1,
            bm == b * m,
            bmk == bm * k,
            bmkn == bmk * n,
    ;
}

/// A dense layer on `[batch, seq, in]` costs exactly `2·batch·seq·in·out`
/// FLOPs, plus `batch·seq·out` for the bias, whenever that fits in a
/// `u64`.
pub proof fn lemma_linear_flops_exact(batch: usize, sq: usize, inf: usize, out: usize, bias: bool)
    requires
        1 <= batch,
        1 <= sq,
        1 <= inf,
        1 <= out,
        2 * batch * sq * inf * out + batch * sq * out <= u64::MAX,
    ensures
        linear_flops(seq![seq![batch, sq, inf]], out, bias)
            == 2 * batch * sq * inf * out + if bias { batch * sq * out } else { 0 },
{
    let a = seq![batch, sq, inf];
    assert(a.drop_last() =~= seq![batch, sq]);
    assert(seq![batch, sq].drop_last() =~= seq![batch]);
    lemma_elements_single(batch);
    let rows: int = batch * sq;
    assert(rows <= u64::MAX && 2 * rows * inf * out == 2 * batch * sq * inf * out
        && rows * out == batch * sq * out && 2 * rows <= 2 * rows * inf && 2 * rows * inf <= 2 * rows * inf * out
        && rows * out <= 2 * rows * inf * out) by (nonlinear_arith)
        requires
            batch >= 1,
            sq >= 1,
            inf >= 1,
            out >= 1,
            rows == batch * sq,
            2 * batch * sq * inf * out + batch * sq * out <= u64::MAX,
    ;
    assert(elements(seq![batch, sq]) == rows);
    assert(spec_last_dim(a) == inf);
}

/// Element-wise activations count per element: ReLU one FLOP, GELU and
/// SiLU eight, whenever the total fits in a `u64`.
pub proof fn lemma_activation_flops_exact(e: usize)
    requires
        1 <= e,
        8 * e <= u64::MAX,
    ensures
        flops_rule(Op::Relu, seq![seq![e]], seq![seq![e]]) == e,
        flops_rule(Op::Gelu, seq![seq![e]], seq![seq![e]]) == 8 * e,
        flops_rule(Op::Silu, seq![seq![e]], seq![seq![e]]) == 8 * e,
{
    lemma_elements_single(e);
}

} // verus!
