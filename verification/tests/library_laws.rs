//! Concrete checks of the library's laws and formulas.

use mlgraph::analysis::bandwidth::BandwidthAnalysis;
use mlgraph::dtype::DType;
use mlgraph::error::Error;
use mlgraph::fusion::attn_block::AttentionBlockFusion;
use mlgraph::fusion::ffn_block::FfnBlockFusion;
use mlgraph::graph::Graph;
use mlgraph::mcts::gpu_rollouts::{CudaError, GpuMctsOffloader};
use mlgraph::models::vit::{build_vit, ViTConfig};
use mlgraph::op::{Activation, Op};
use mlgraph::pass::{AnalysisPass, TransformPass};
use mlgraph::scalar::Float32;

/// A single-precision attribute with the encoding of `x`.
fn f32b(x: f32) -> Float32 {
    Float32::from_bits(x.to_bits())
}

/// The attention score scale of a configuration: `1/sqrt(head_dim)` in
/// single precision.
fn vit_scale(cfg: &ViTConfig) -> Float32 {
    let hd = if cfg.num_heads == 0 { 1 } else { cfg.hidden_dim / cfg.num_heads };
    Float32::from_bits(((1.0 / (hd as f64).sqrt()) as f32).to_bits())
}

#[test]
fn int4_packing() {
    assert_eq!(DType::Int4.byte_size_for_elements(1), 1);
    assert_eq!(DType::Int4.byte_size_for_elements(2), 1);
    assert_eq!(DType::Int4.byte_size_for_elements(3), 2);
    assert_eq!(DType::Int4.byte_size_for_elements(4), 2);
}

#[test]
fn f16_byte_size() {
    assert_eq!(DType::F16.byte_size(), 2);
    assert_eq!(DType::F16.byte_size_for_elements(100), 200);
}

#[test]
fn dtype_names_and_sizes() {
    assert_eq!(DType::Bf16.name(), "bf16");
    assert_eq!(DType::Int4.name(), "int4");
    assert_eq!(DType::I64.byte_size(), 8);
    assert_eq!(DType::U8.byte_size_for_elements(7), 7);
    assert_eq!(DType::Int4.byte_size_for_elements(u64::MAX), u64::MAX / 2 + 1);
    assert_eq!(DType::F64.byte_size_for_elements(u64::MAX / 4), u64::MAX);
}

#[test]
fn float32_sign_and_nan() {
    assert!(f32b(1e-6).is_non_negative());
    assert!(f32b(0.0).is_non_negative());
    assert!(f32b(-0.0).is_non_negative());
    assert!(!f32b(-1.0).is_non_negative());
    assert!(f32b(f32::NAN).is_nan());
    assert!(!f32b(f32::NAN).is_non_negative());
    assert!(!f32b(f32::INFINITY).is_nan());
    assert_eq!(f32b(2.5).to_bits(), 2.5f32.to_bits());
}

#[test]
fn error_messages() {
    let e = Error::UnknownId { kind: "tensor", id: 42 };
    assert_eq!(
        e.message(),
        "reference to unknown tensor id 42. Fix: ensure the id was returned by a previous graph operation."
    );
    let e = Error::ShapeMismatch { op_name: "matmul".to_string(), reason: "expected 2 inputs".to_string() };
    assert_eq!(
        e.message(),
        "shape mismatch in 'matmul': expected 2 inputs. Fix: verify the tensor shapes flowing into this operation."
    );
    let e = Error::InvalidGraph { reason: "patch_size must be > 0".to_string() };
    assert_eq!(e.message(), "invalid graph operation: patch_size must be > 0");
    let e = Error::FusionFailed { pattern_name: "ffn_block".to_string(), reason: "output tensor not found".to_string() };
    assert_eq!(
        e.message(),
        "fusion 'ffn_block' failed: output tensor not found. Fix: ensure the subgraph matches the expected pattern."
    );
}

#[test]
fn id_labels() {
    let mut g = Graph::new("ids");
    let n = g.alloc_node_id();
    let n2 = g.alloc_node_id();
    let t = g.alloc_tensor_id();
    assert_eq!(n.label(), "n0");
    assert_eq!(n2.label(), "n1");
    assert_eq!(t.label(), "t0");
}

#[test]
fn mark_output_twice_is_once() {
    let mut g = Graph::new("out");
    let a = g.input("a", &[2], DType::F32);
    let b = g.input("b", &[2], DType::F32);
    g.mark_output(a);
    g.mark_output(b);
    g.mark_output(a);
    assert_eq!(g.graph_outputs(), &[a, b]);
}

#[test]
fn node_registers_consumers_and_fresh_ids() {
    let mut g = Graph::new("fresh");
    let x = g.input("x", &[2, 3], DType::F16);
    let outs = g.node("split", Op::Split { dim: 1, sections: vec![1, 2] }, &[x]).unwrap();
    assert_eq!(outs.len(), 2);
    assert_eq!(g.tensor(outs[0]).unwrap().name(), "split.0");
    assert_eq!(g.tensor(outs[1]).unwrap().name(), "split.1");
    assert_eq!(g.tensor(outs[1]).unwrap().shape(), &[2, 2]);
    assert_eq!(g.tensor(outs[1]).unwrap().dtype(), DType::F16);
    let producer = g.tensor(outs[0]).unwrap().producer().unwrap();
    assert_eq!(g.tensor(x).unwrap().consumers(), &[producer]);
    assert_eq!(g.num_nodes(), 1);
    assert_eq!(g.num_tensors(), 3);
}

#[test]
fn remove_node_clears_consumers_and_outputs() {
    let mut g = Graph::new("rm");
    let x = g.input("x", &[4], DType::F32);
    let y = g.node("relu", Op::Relu, &[x]).unwrap()[0];
    g.mark_output(y);
    let n = g.tensor(y).unwrap().producer().unwrap();
    g.remove_node(n);
    assert!(g.tensor(y).is_none());
    assert!(g.graph_outputs().is_empty());
    assert!(g.tensor(x).unwrap().consumers().is_empty());
    assert!(g.node_by_id(n).is_none());
}

#[test]
fn tensor_mut_writes_back() {
    let mut g = Graph::new("mut");
    let x = g.input("x", &[4], DType::F32);
    g.tensor_mut(x).unwrap().set_dtype(DType::Int4);
    assert_eq!(g.tensor(x).unwrap().dtype(), DType::Int4);
    assert_eq!(g.tensor(x).unwrap().byte_size(), 2);
}

#[test]
fn topological_order_takes_largest_ready_id_first() {
    let mut g = Graph::new("diamond");
    let x = g.input("x", &[4], DType::F32);
    let a = g.node("a", Op::Relu, &[x]).unwrap()[0];
    let b = g.node("b", Op::Gelu, &[x]).unwrap()[0];
    let _c = g.node("c", Op::Add, &[a, b]).unwrap()[0];
    let order = g.topological_order();
    let names: Vec<&str> = order.iter().map(|id| g.node_by_id(*id).unwrap().name()).collect();
    assert_eq!(names, vec!["b", "a", "c"]);
}

#[test]
fn topological_order_is_deterministic() {
    let mut g = Graph::new("wide");
    let x = g.input("x", &[4], DType::F32);
    let mut outs = Vec::new();
    for i in 0..6 {
        outs.push(g.node(&format!("n{}", i), Op::Relu, &[x]).unwrap()[0]);
    }
    let _s = g.node("sum", Op::Add, &[outs[0], outs[5]]).unwrap();
    let first = g.topological_order();
    let second = g.clone().topological_order();
    assert_eq!(first, second);
    let names: Vec<&str> = first.iter().map(|id| g.node_by_id(*id).unwrap().name()).collect();
    assert_eq!(names, vec!["n5", "n4", "n3", "n2", "n1", "n0", "sum"]);
}

#[test]
fn topological_order_leaves_out_cycles_only() {
    let mut g = Graph::new("cycle");
    let x = g.input("x", &[4], DType::F32);
    let t = g.node("a", Op::Relu, &[x]).unwrap()[0];
    let _u = g.node("side", Op::Gelu, &[x]).unwrap()[0];
    g.add_fused_node("b", Op::Relu, &[t], &[(t, t)]).unwrap();
    let order = g.topological_order();
    let names: Vec<&str> = order.iter().map(|id| g.node_by_id(*id).unwrap().name()).collect();
    assert_eq!(names, vec!["side", "a"]);
}

#[test]
fn analysis_reports_exact_counts() {
    let mut g = Graph::new("exact");
    let x = g.input("x", &[1, 4], DType::F32);
    let y = g.node("relu", Op::Relu, &[x]).unwrap()[0];
    let _z = g.node("gelu", Op::Gelu, &[y]).unwrap();
    let report = BandwidthAnalysis.analyze(&g).unwrap();
    assert_eq!(report.nodes.len(), 2);
    assert_eq!(report.nodes[0].node_name, "relu");
    assert_eq!(report.nodes[0].op_name, "relu");
    assert_eq!(report.nodes[0].hbm_read, 16);
    assert_eq!(report.nodes[0].hbm_write, 16);
    assert_eq!(report.nodes[0].hbm_total, 32);
    assert_eq!(report.nodes[0].flops, 4);
    assert_eq!(report.nodes[1].flops, 32);
    assert!(!report.nodes[1].is_fused);
    assert_eq!(report.total_hbm_read, 32);
    assert_eq!(report.total_hbm_write, 32);
    assert_eq!(report.total_hbm_traffic, 64);
    assert_eq!(report.total_flops, 36);
}

#[test]
fn analysis_totals_saturate() {
    let mut g = Graph::new("huge");
    let x = g.input("x", &[usize::MAX / 2, 4], DType::F32);
    let y = g.node("r1", Op::Relu, &[x]).unwrap()[0];
    let _z = g.node("r2", Op::Relu, &[y]).unwrap();
    let report = BandwidthAnalysis.analyze(&g).unwrap();
    assert_eq!(report.nodes[0].hbm_read, u64::MAX);
    assert_eq!(report.total_hbm_read, u64::MAX);
    assert_eq!(report.total_hbm_traffic, u64::MAX);
    assert_eq!(report.total_flops, u64::MAX);
}

#[test]
fn analysis_names_the_cycle() {
    let mut g = Graph::new("cycle");
    let x = g.input("x", &[4], DType::F32);
    let t = g.node("a", Op::Relu, &[x]).unwrap()[0];
    g.add_fused_node("b", Op::Relu, &[t], &[(t, t)]).unwrap();
    match BandwidthAnalysis.analyze(&g) {
        Err(Error::InvalidGraph { reason }) => assert_eq!(
            reason,
            "graph contains a cycle: topological order visited 1 of 2 nodes. Fix: remove the cyclic edge before running analysis."
        ),
        other => panic!("expected a cycle error, got {other:?}"),
    }
}

#[test]
fn analysis_names_the_dangling_tensor() {
    let mut g = Graph::new("dangling");
    let x = g.input("x", &[4], DType::F32);
    let y = g.node("a", Op::Relu, &[x]).unwrap()[0];
    let _z = g.node("b", Op::Relu, &[y]).unwrap();
    let a = g.tensor(y).unwrap().producer().unwrap();
    g.remove_node(a);
    match BandwidthAnalysis.analyze(&g) {
        Err(Error::UnknownId { kind, id }) => {
            assert_eq!(kind, "tensor");
            assert_eq!(id, 1);
        },
        other => panic!("expected an unknown tensor, got {other:?}"),
    }
}

#[test]
fn add_fused_node_rewires_consumers_and_outputs() {
    let mut g = Graph::new("fuse");
    let x = g.input("x", &[4], DType::F32);
    let a = g.node("a", Op::Relu, &[x]).unwrap()[0];
    let b = g.node("b", Op::Gelu, &[a]).unwrap()[0];
    g.mark_output(a);
    let fresh = g.alloc_tensor_id();
    let fused = g.add_fused_node("f", Op::Relu, &[x], &[(a, fresh)]).unwrap();
    let consumer = g.tensor(b).unwrap().producer().unwrap();
    assert_eq!(g.node_by_id(consumer).unwrap().inputs(), &[fresh]);
    assert_eq!(g.tensor(fresh).unwrap().producer(), Some(fused));
    assert_eq!(g.tensor(fresh).unwrap().name(), "f.out");
    assert_eq!(g.graph_outputs(), &[fresh]);
    assert!(g.tensor(x).unwrap().consumers().contains(&fused));
}

#[test]
fn vit_presets() {
    let t = ViTConfig::tiny();
    assert_eq!(t.name, "ViT-Tiny");
    assert_eq!(t.head_dim(), 64);
    assert_eq!(t.num_patches(), 196);
    assert_eq!(t.seq_len(), 197);
    let s = ViTConfig::small();
    assert_eq!((s.hidden_dim, s.num_heads, s.mlp_dim), (384, 6, 1536));
    let b = ViTConfig::base();
    assert_eq!((b.hidden_dim, b.num_heads, b.mlp_dim, b.head_dim()), (768, 12, 3072, 64));
}

#[test]
fn vit_rejects_with_exact_reasons() {
    let mut c = ViTConfig::tiny();
    c.hidden_dim = 100;
    match build_vit(&c, vit_scale(&c)) {
        Err(Error::InvalidGraph { reason }) =>
            assert_eq!(reason, "hidden_dim (100) must be divisible by num_heads (3)"),
        other => panic!("expected a config error, got {other:?}"),
    }
    let mut c = ViTConfig::tiny();
    c.image_size = 225;
    match build_vit(&c, vit_scale(&c)) {
        Err(Error::InvalidGraph { reason }) =>
            assert_eq!(reason, "image_size (225) must be divisible by patch_size (16)"),
        other => panic!("expected a config error, got {other:?}"),
    }
    let mut c = ViTConfig::tiny();
    c.num_classes = 0;
    match build_vit(&c, vit_scale(&c)) {
        Err(Error::InvalidGraph { reason }) => assert_eq!(reason, "num_classes must be > 0"),
        other => panic!("expected a config error, got {other:?}"),
    }
}

#[test]
fn vit_tiny_graph_shape_and_fusion_fixpoint() {
    let c = ViTConfig::tiny();
    let mut g = build_vit(&c, vit_scale(&c)).unwrap();
    assert_eq!(g.name(), "ViT-Tiny");
    assert_eq!(g.num_nodes(), 23 * 12 + 3);
    assert_eq!(g.num_tensors(), 25 * 12 + 4);
    let image = g.graph_inputs()[0];
    assert_eq!(g.tensor(image).unwrap().shape(), &[1, 3, 224, 224]);
    let logits = g.graph_outputs()[0];
    assert_eq!(g.tensor(logits).unwrap().shape(), &[1, 197, 1000]);
    assert_eq!(g.tensor(logits).unwrap().dtype(), DType::F16);

    let before = BandwidthAnalysis.analyze(&g).unwrap();
    assert_eq!(before.nodes.len(), 279);

    assert_eq!(AttentionBlockFusion.transform(&mut g).unwrap(), 12);
    assert_eq!(g.num_nodes(), 279 - 12 * 17);
    assert_eq!(AttentionBlockFusion.transform(&mut g).unwrap(), 0);
    assert_eq!(FfnBlockFusion.transform(&mut g).unwrap(), 12);
    assert_eq!(g.num_nodes(), 27);
    assert_eq!(FfnBlockFusion.transform(&mut g).unwrap(), 0);

    let after = BandwidthAnalysis.analyze(&g).unwrap();
    assert_eq!(after.nodes.len(), 27);
    assert!(after.total_hbm_traffic < before.total_hbm_traffic);
    assert_eq!(after.nodes.iter().filter(|n| n.is_fused).count(), 24);
    assert_eq!(g.graph_outputs(), &[logits]);
}

#[test]
fn vit_layer_names() {
    let c = ViTConfig::tiny();
    let g = build_vit(&c, vit_scale(&c)).unwrap();
    let names: Vec<&str> = g.nodes().into_iter().map(|n| n.name()).collect();
    assert!(names.contains(&"L0.attn.qkv"));
    assert!(names.contains(&"L11.ffn.residual"));
    assert!(names.contains(&"head.linear"));
    assert_eq!(names[0], "patch_embed");
}

#[test]
fn vit_layer_layout_by_id() {
    let c = ViTConfig::tiny();
    let g = build_vit(&c, vit_scale(&c)).unwrap();
    let nodes = g.nodes();
    let labels = |ts: &[mlgraph::graph::TensorId]| -> Vec<String> { ts.iter().map(|t| t.label()).collect() };
    // Layer 3 starts at node 1 + 23 * 3 and tensor 2 + 25 * 3, reading tensor 76.
    let ln = nodes[70];
    assert_eq!(ln.name(), "L3.attn.ln");
    assert_eq!(labels(ln.inputs()), vec!["t76"]);
    assert_eq!(labels(ln.outputs()), vec!["t77"]);
    let split = nodes[72];
    assert_eq!(split.name(), "L3.attn.split");
    assert_eq!(labels(split.outputs()), vec!["t79", "t80", "t81"]);
    assert_eq!(split.op(), &Op::Split { dim: 2, sections: vec![192, 192, 192] });
    let scores = nodes[80];
    assert_eq!(scores.name(), "L3.attn.scores");
    assert_eq!(labels(scores.inputs()), vec!["t85", "t88"]);
    assert_eq!(scores.op(), &Op::MatMul);
    let reshape = nodes[85];
    assert_eq!(reshape.name(), "L3.attn.context_reshape");
    assert_eq!(reshape.op(), &Op::Reshape { target: vec![1, 197, 192] });
    let residual = nodes[92];
    assert_eq!(residual.name(), "L3.ffn.residual");
    assert_eq!(labels(residual.inputs()), vec!["t96", "t100"]);
    assert_eq!(labels(residual.outputs()), vec!["t101"]);
    assert_eq!(nodes[277].name(), "head.ln");
    assert_eq!(labels(nodes[277].inputs()), vec!["t301"]);
    assert_eq!(nodes[278].name(), "head.linear");
    assert_eq!(nodes[278].op(), &Op::Linear { out_features: 1000, bias: true });
    assert_eq!(labels(nodes[278].outputs()), vec!["t303"]);
}

#[test]
fn matmul_flops_formula() {
    let op = Op::MatMul;
    assert_eq!(op.flops(&[&[3, 5, 7], &[7, 11]], &[&[3, 5, 11]]), 2 * 3 * 5 * 7 * 11);
    assert_eq!(op.flops(&[&[1, 1, 1], &[1, 1]], &[&[1, 1, 1]]), 2);
}

#[test]
fn linear_flops_formula() {
    let with_bias = Op::Linear { out_features: 5, bias: true };
    assert_eq!(with_bias.flops(&[&[2, 3, 4]], &[&[2, 3, 5]]), 2 * 6 * 4 * 5 + 6 * 5);
    let without = Op::Linear { out_features: 5, bias: false };
    assert_eq!(without.flops(&[&[2, 3, 4]], &[&[2, 3, 5]]), 2 * 6 * 4 * 5);
}

#[test]
fn activation_flops_per_element() {
    for e in [1usize, 17, 1000] {
        assert_eq!(Op::Relu.flops(&[&[e]], &[&[e]]), e as u64);
        assert_eq!(Op::Gelu.flops(&[&[e]], &[&[e]]), 8 * e as u64);
        assert_eq!(Op::Silu.flops(&[&[e]], &[&[e]]), 8 * e as u64);
    }
}

#[test]
fn fused_ffn_flops_exact() {
    let op = Op::FusedFfnBlock { hidden_dim: 4, intermediate_dim: 8, activation: Activation::Relu, has_bias: false };
    // LN 5*2*4 + up 2*2*4*8 + relu 2*8 + down 2*2*8*4 + residual 2*4
    assert_eq!(op.flops(&[&[1, 2, 4]], &[&[1, 2, 4]]), 40 + 128 + 16 + 128 + 8);
}

#[test]
fn gpu_rollouts_without_device() {
    let off = GpuMctsOffloader::new();
    assert!(off.dispatch_warp_rollouts(&[]).unwrap().is_empty());
    assert!(matches!(off.dispatch_warp_rollouts(&[1, 2, 3]), Err(CudaError::ContextAllocationFailed)));
}

#[test]
fn float32_compares_as_binary32() {
    assert_ne!(f32b(f32::NAN), f32b(f32::NAN));
    assert_eq!(f32b(0.0), f32b(-0.0));
    assert_eq!(f32b(1.5), f32b(1.5));
    assert_ne!(f32b(1.5), f32b(-1.5));
    assert_eq!(Op::ScalarMul { factor: f32b(0.0) }, Op::ScalarMul { factor: f32b(-0.0) });
    assert_ne!(Op::LayerNorm { eps: f32b(f32::NAN) }, Op::LayerNorm { eps: f32b(f32::NAN) });
}

#[test]
fn ffn_activation_flops_differ_by_seven_per_element() {
    let s: [usize; 3] = [1, 4, 192];
    let ins: [&[usize]; 1] = [&s];
    let f = |a: Activation| {
        Op::FusedFfnBlock { hidden_dim: 192, intermediate_dim: 768, activation: a, has_bias: true }.flops(&ins, &ins)
    };
    assert_eq!(f(Activation::Relu), 2370816);
    assert_eq!(f(Activation::Gelu), 2392320);
    assert_eq!(f(Activation::Silu), f(Activation::Gelu));
    assert_eq!(f(Activation::Gelu) - f(Activation::Relu), 7 * 4 * 768);
}

#[test]
fn patch_embed_parameters_read_once_per_batch() {
    let op = Op::PatchEmbed { patch_size: 16, in_channels: 3, embed_dim: 768 };
    let s1: [usize; 4] = [1, 3, 224, 224];
    let s2: [usize; 4] = [2, 3, 224, 224];
    let r1 = op.hbm_bytes_read(&[&s1], DType::F16);
    let r2 = op.hbm_bytes_read(&[&s2], DType::F16);
    assert_eq!(r1, 1784832);
    assert_eq!(r2 - r1, 2 * 3 * 224 * 224);
}

#[test]
fn fused_transformer_reads_split_into_blocks() {
    let s: [usize; 3] = [1, 197, 192];
    let ins: [&[usize]; 1] = [&s];
    let t = Op::FusedTransformerLayer {
        num_heads: 3, head_dim: 64, hidden_dim: 192, intermediate_dim: 768,
        activation: Activation::Gelu, has_bias: true,
    }.hbm_bytes_read(&ins, DType::F16);
    let a = Op::FusedAttentionBlock { num_heads: 3, head_dim: 64, hidden_dim: 192, has_bias: true }
        .hbm_bytes_read(&ins, DType::F16);
    let f = Op::FusedFfnBlock { hidden_dim: 192, intermediate_dim: 768, activation: Activation::Gelu, has_bias: true }
        .hbm_bytes_read(&ins, DType::F16);
    assert_eq!(t + DType::F16.byte_size_for_elements(197 * 192), a + f);
}

#[test]
fn ffn_fusion_keeps_outputs_consumers_and_input() {
    let mut g = Graph::new("ffn");
    let x = g.input("x", &[1, 4, 192], DType::F16);
    let ln = g.node("ln", Op::LayerNorm { eps: f32b(1e-6) }, &[x]).unwrap()[0];
    let up = g.node("up", Op::Linear { out_features: 768, bias: true }, &[ln]).unwrap()[0];
    let act = g.node("act", Op::Relu, &[up]).unwrap()[0];
    let down = g.node("down", Op::Linear { out_features: 192, bias: true }, &[act]).unwrap()[0];
    let add = g.node("add", Op::Add, &[down, x]).unwrap()[0];
    let tail = g.node("tail", Op::Gelu, &[add]).unwrap()[0];
    g.mark_output(add);
    g.mark_output(tail);
    let before = g.num_nodes();
    assert_eq!(FfnBlockFusion.transform(&mut g).unwrap(), 1);
    assert_eq!(g.num_nodes(), before - 4);
    assert_eq!(g.graph_outputs(), &[add, tail]);
    let fused = g.nodes().into_iter().find(|n| n.op().is_fused()).unwrap();
    assert_eq!(fused.inputs(), &[x]);
    assert_eq!(g.tensor(add).unwrap().producer(), Some(fused.id()));
    assert_eq!(g.tensor(add).unwrap().shape(), &[1, 4, 192]);
    assert_eq!(g.tensor(add).unwrap().consumers().len(), 1);
    assert!(g.tensor(x).unwrap().consumers().contains(&fused.id()));
    assert!(g.tensor(ln).is_none() && g.tensor(up).is_none() && g.tensor(act).is_none() && g.tensor(down).is_none());
    assert_eq!(FfnBlockFusion.transform(&mut g).unwrap(), 0);
}

#[test]
fn add_fused_node_refuses_unallocated_output_id() {
    let mut other = Graph::new("other");
    let mut far = other.input("a", &[1], DType::F32);
    for _ in 0..4 {
        far = other.input("b", &[1], DType::F32);
    }
    let mut g = Graph::new("g");
    let x = g.input("x", &[4], DType::F32);
    let a = g.node("a", Op::Relu, &[x]).unwrap()[0];
    let before_nodes = g.num_nodes();
    let res = g.add_fused_node("f", Op::Relu, &[x], &[(a, far)]);
    match res {
        Err(Error::InvalidGraph { reason }) => assert_eq!(reason, "fused output tensor id was never allocated"),
        other => panic!("expected InvalidGraph, got {:?}", other),
    }
    assert_eq!(g.num_nodes(), before_nodes);
    assert_eq!(g.num_tensors(), 2);
    assert!(g.tensor(far).is_none());
}

#[test]
fn vit_tensors_mirror_the_nodes() {
    let c = ViTConfig::tiny();
    let g = build_vit(&c, vit_scale(&c)).unwrap();
    assert_eq!(g.num_tensors(), 304);
    let nodes = g.nodes();
    let patch_out = nodes[0].outputs()[0];
    let t = g.tensor(patch_out).unwrap();
    assert_eq!(t.producer(), Some(nodes[0].id()));
    assert_eq!(t.shape(), &[1, 197, 192]);
    assert_eq!(t.dtype(), DType::F16);
    let readers: Vec<String> = t.consumers().iter().map(|n| n.label()).collect();
    assert_eq!(readers, vec!["n1", "n18"]);
    for n in &nodes {
        for out in n.outputs() {
            assert_eq!(g.tensor(*out).unwrap().producer(), Some(n.id()));
        }
        for inp in n.inputs() {
            assert!(g.tensor(*inp).unwrap().consumers().contains(&n.id()));
        }
    }
    assert_eq!(g.topological_order().len(), 279);
}
