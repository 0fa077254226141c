//! Graph construction and shape inference: every layer records the expected shapes.

use teenyformers::graph::{DtypeRepr, Graph, Op, SymTensor};
use teenyformers::ieee::f32_to_f64;
use teenyformers::layers::{
    AttentionKind, DecoderBlock, EncoderBlock, FeedForward, LlamaBlock, MultiHeadAttention,
    TokenEmbedding,
};
use teenyformers::{Llama, LlamaConfig, Transformer, TransformerConfig};

fn bits(x: f32) -> u32 {
    x.to_bits()
}

/// Records a 2-D symbolic input `[S, D]`.
fn input_2d(graph: &mut Graph, s: usize, d: usize) -> SymTensor {
    SymTensor::input(graph, DtypeRepr::F32, vec![Some(s), Some(d)])
}

/// Records a 1-D symbolic input `[S]`.
fn input_1d(graph: &mut Graph, s: usize) -> SymTensor {
    SymTensor::input(graph, DtypeRepr::F32, vec![Some(s)])
}

/// The name of every node, `-` where it has none.
fn names(graph: &Graph) -> Vec<String> {
    graph.nodes.iter().map(|n| n.name.clone().unwrap_or("-".to_string())).collect()
}

/// A one-word description of every node's op.
fn ops(graph: &Graph) -> Vec<&'static str> {
    graph
        .nodes
        .iter()
        .map(|n| match &n.op {
            Op::Input => "input",
            Op::Linear { .. } => "linear",
            Op::RmsNorm { .. } => "rmsnorm",
            Op::Add => "add",
            Op::Custom(op) => op.name(),
        })
        .collect()
}

/// Every node reads earlier nodes.
fn in_order(graph: &Graph) -> bool {
    graph.nodes.iter().enumerate().all(|(i, n)| n.inputs.iter().all(|j| *j < i))
}

#[test]
fn test_ffn_shape() {
    let (d_model, d_ff, seq) = (64, 128, 8);
    let mut graph = Graph::new();
    let ffn = FeedForward::new(d_model, d_ff);
    let x = input_2d(&mut graph, seq, d_model);
    let out = ffn.forward(&mut graph, x);
    assert_eq!(out.shape, vec![Some(seq), Some(d_model)]);
}

#[test]
fn test_self_attention_shape() {
    let (d_model, seq) = (64, 8);
    let mut graph = Graph::new();
    let attn = MultiHeadAttention::new(d_model, 4, bits(10_000.0), AttentionKind::Bidirectional);
    let x = input_2d(&mut graph, seq, d_model);
    let out = attn.self_attn(&mut graph, x);
    assert_eq!(out.shape, vec![Some(seq), Some(d_model)]);
}

#[test]
fn test_causal_attention_shape() {
    let (d_model, seq) = (64, 8);
    let mut graph = Graph::new();
    let attn = MultiHeadAttention::new(d_model, 4, bits(10_000.0), AttentionKind::Causal);
    let x = input_2d(&mut graph, seq, d_model);
    let out = attn.self_attn(&mut graph, x);
    assert_eq!(out.shape, vec![Some(seq), Some(d_model)]);
}

#[test]
fn test_cross_attention_shape() {
    let (d_model, sq, sk) = (64, 5, 7);
    let mut graph = Graph::new();
    let q = input_2d(&mut graph, sq, d_model);
    let ctx = input_2d(&mut graph, sk, d_model);
    let attn = MultiHeadAttention::new(d_model, 4, bits(10_000.0), AttentionKind::Bidirectional);
    let out = attn.cross_attn(&mut graph, q, ctx);
    assert_eq!(out.shape, vec![Some(sq), Some(d_model)]);
}

#[test]
fn test_encoder_block_shape() {
    let cfg = TransformerConfig { d_model: 64, n_heads: 4, ..Default::default() };
    let block = EncoderBlock::new(
        cfg.d_model,
        cfg.n_heads,
        cfg.d_ff(),
        cfg.rope_base,
        f32_to_f64(cfg.eps),
    );
    let mut graph = Graph::new();
    let x = input_2d(&mut graph, 8, cfg.d_model);
    let out = block.forward(&mut graph, x);
    assert_eq!(out.shape, vec![Some(8), Some(cfg.d_model)]);
}

#[test]
fn test_decoder_block_shape() {
    let cfg = TransformerConfig { d_model: 64, n_heads: 4, ..Default::default() };
    let mut graph = Graph::new();
    let tgt = input_2d(&mut graph, 5, cfg.d_model);
    let enc = input_2d(&mut graph, 7, cfg.d_model);
    let block = DecoderBlock::new(
        cfg.d_model,
        cfg.n_heads,
        cfg.d_ff(),
        cfg.rope_base,
        f32_to_f64(cfg.eps),
    );
    let out = block.forward(&mut graph, tgt, enc);
    assert_eq!(out.shape, vec![Some(5), Some(cfg.d_model)]);
}

#[test]
fn test_token_embedding_shape() {
    let (vocab, d_model, seq) = (1000, 64, 8);
    let mut graph = Graph::new();
    let emb = TokenEmbedding::new(vocab, d_model);
    let ids = input_1d(&mut graph, seq);
    let out = emb.forward(&mut graph, ids);
    assert_eq!(out.shape, vec![Some(seq), Some(d_model)]);
}

#[test]
fn test_output_proj_shape() {
    let (vocab, d_model, seq) = (1000, 64, 8);
    let mut graph = Graph::new();
    let emb = TokenEmbedding::new(vocab, d_model);
    let x = input_2d(&mut graph, seq, d_model);
    let logits = emb.output_proj(&mut graph, x);
    assert_eq!(logits.shape, vec![Some(seq), Some(vocab)]);
}

#[test]
fn test_full_transformer_shape() {
    let cfg = TransformerConfig {
        d_model: 64,
        n_heads: 4,
        n_encoder_layers: 2,
        n_decoder_layers: 2,
        vocab_size: 1000,
        ..Default::default()
    };
    let model = Transformer::new(&cfg);

    let mut graph = Graph::new();
    let src_ids = input_1d(&mut graph, 7);
    let tgt_ids = input_1d(&mut graph, 5);

    let logits = model.forward(&mut graph, src_ids, tgt_ids);
    assert_eq!(logits.shape, vec![Some(5), Some(cfg.vocab_size)]);
}

#[test]
fn attention_records_eleven_nodes_in_order() {
    let mut graph = Graph::new();
    let x = input_2d(&mut graph, 3, 8);
    let attn = MultiHeadAttention::new(8, 2, bits(10_000.0), AttentionKind::Causal);
    graph.push_scope("self_attn");
    let out = attn.self_attn(&mut graph, x);
    graph.pop_scope();
    assert_eq!(out.node_id, 11);
    assert_eq!(
        ops(&graph),
        vec![
            "input",
            "linear",
            "linear",
            "linear",
            "transpose_heads",
            "transpose_heads",
            "transpose_heads",
            "rope",
            "rope",
            "causal_flash_attn2",
            "merge_heads",
            "linear",
        ]
    );
    assert_eq!(
        names(&graph),
        vec![
            "-",
            "self_attn.q_proj",
            "self_attn.k_proj",
            "self_attn.v_proj",
            "self_attn",
            "self_attn",
            "self_attn",
            "self_attn",
            "self_attn",
            "self_attn",
            "self_attn",
            "self_attn.o_proj",
        ]
    );
    // Attention reads rotated queries, rotated keys and plain values.
    assert_eq!(graph.nodes[9].inputs, vec![7, 8, 6]);
    assert_eq!(graph.nodes[4].shape, vec![Some(2), Some(3), Some(4)]);
    assert!(in_order(&graph));
}

#[test]
fn attention_scale_is_inverse_square_root() {
    let mut graph = Graph::new();
    let x = input_2d(&mut graph, 3, 48);
    let attn = MultiHeadAttention::new(48, 2, bits(10_000.0), AttentionKind::Bidirectional);
    let _ = attn.self_attn(&mut graph, x);
    let expected = (1.0_f32 / 24.0_f32.sqrt()).to_bits();
    let found = match &graph.nodes[9].op {
        Op::Custom(teenyformers::graph::CustomOp::FlashAttn2(op)) => op.softmax_scale,
        _ => panic!("no attention node"),
    };
    assert_eq!(found, expected);
}

#[test]
fn ffn_names_and_widths() {
    let mut graph = Graph::new();
    let x = SymTensor::input(&mut graph, DtypeRepr::F32, vec![None, Some(16)]);
    let ffn = FeedForward::new(16, 24);
    graph.push_scope("mlp");
    let out = ffn.forward(&mut graph, x);
    graph.pop_scope();
    assert_eq!(out.shape, vec![None, Some(16)]);
    assert_eq!(names(&graph), vec!["-", "mlp.gate_up_proj", "mlp", "mlp.down_proj"]);
    assert_eq!(graph.nodes[1].shape, vec![None, Some(48)]);
    assert_eq!(graph.nodes[2].shape, vec![None, Some(24)]);
    assert!(matches!(
        graph.nodes[1].op,
        Op::Linear { in_features: 16, out_features: 48, has_bias: false }
    ));
}

#[test]
fn block_and_stack_node_counts() {
    let cfg = TransformerConfig {
        d_model: 64,
        n_heads: 4,
        n_encoder_layers: 3,
        n_decoder_layers: 2,
        vocab_size: 100,
        ..Default::default()
    };
    let model = Transformer::new(&cfg);
    let mut graph = Graph::new();
    let src = input_1d(&mut graph, 7);
    let tgt = input_1d(&mut graph, 5);
    let logits = model.forward(&mut graph, src, tgt);
    assert_eq!(graph.nodes.len(), 2 + 3 * 18 + 2 * 31 + 5);
    assert_eq!(logits.node_id, graph.nodes.len() - 1);
    assert!(in_order(&graph));
    // The stability constant is widened exactly.
    let eps = (1e-6_f32 as f64).to_bits();
    assert_eq!(model.encoder.eps, eps);
    assert_eq!(model.decoder.blocks[1].eps, eps);
}

#[test]
fn tables_share_their_extent() {
    let cfg = TransformerConfig {
        d_model: 64,
        n_heads: 4,
        n_encoder_layers: 1,
        n_decoder_layers: 1,
        vocab_size: 100,
        ..Default::default()
    };
    let model = Transformer::new(&cfg);
    let mut graph = Graph::new();
    let src = input_1d(&mut graph, 7);
    let tgt = input_1d(&mut graph, 5);
    let _ = model.forward(&mut graph, src, tgt);
    let lookups = graph
        .nodes
        .iter()
        .filter(|n| match &n.op {
            Op::Custom(teenyformers::graph::CustomOp::TokenEmbed(op)) => {
                op.vocab_size == 100 && op.d_model == 64
            }
            _ => false,
        })
        .count();
    assert_eq!(lookups, 2);
    assert!(matches!(
        graph.nodes[graph.nodes.len() - 1].op,
        Op::Linear { in_features: 64, out_features: 100, has_bias: false }
    ));
}

#[test]
fn tables_share_their_name() {
    let cfg = TransformerConfig { n_encoder_layers: 1, n_decoder_layers: 1, ..Default::default() };
    let mut graph = Graph::new();
    let src = input_1d(&mut graph, 7);
    let tgt = input_1d(&mut graph, 5);
    graph.push_scope("model");
    let _ = Transformer::new(&cfg).forward(&mut graph, src, tgt);
    let lookups: Vec<&Option<String>> = graph
        .nodes
        .iter()
        .filter(|n| matches!(n.op, Op::Custom(teenyformers::graph::CustomOp::TokenEmbed(_))))
        .map(|n| &n.name)
        .collect();
    let name = Some("model".to_string());
    assert_eq!(lookups, vec![&name, &name]);
    assert_eq!(graph.nodes[graph.nodes.len() - 1].name, name);
}

#[test]
fn llama_logits() {
    let cfg = LlamaConfig { d_model: 64, n_heads: 4, n_layers: 2, vocab_size: 99, ..Default::default() };
    let model = Llama::new(&cfg);
    assert_eq!(model.layers[0].ffn.d_ff, 192);
    let mut graph = Graph::new();
    let ids = input_1d(&mut graph, 6);
    let logits = model.forward(&mut graph, ids);
    assert_eq!(logits.shape, vec![Some(6), Some(99)]);
    assert_eq!(graph.nodes.len(), 1 + 2 * 18 + 3);
    assert!(in_order(&graph));
    assert!(ops(&graph).contains(&"causal_flash_attn2"));
    assert!(!ops(&graph).contains(&"flash_attn2"));
}

#[test]
fn llama_block_is_causal_and_keeps_shape() {
    let block = LlamaBlock::new(32, 2, 96, bits(10_000.0), 1e-5_f64.to_bits());
    let mut graph = Graph::new();
    let x = input_2d(&mut graph, 4, 32);
    let out = block.forward(&mut graph, x);
    assert_eq!(out.shape, vec![Some(4), Some(32)]);
    assert_eq!(graph.nodes.len(), 19);
    assert_eq!(graph.nodes[18].inputs, vec![13, 17]);
}

#[test]
fn models_without_layers() {
    let cfg = TransformerConfig {
        d_model: 7,
        n_heads: 0,
        n_encoder_layers: 0,
        n_decoder_layers: 0,
        vocab_size: 10,
        ..Default::default()
    };
    let model = Transformer::new(&cfg);
    let mut graph = Graph::new();
    let src = input_1d(&mut graph, 3);
    let tgt = input_1d(&mut graph, 2);
    let logits = model.forward(&mut graph, src, tgt);
    assert_eq!(logits.shape, vec![Some(2), Some(10)]);
    assert_eq!(graph.nodes.len(), 7);
}

#[test]
fn scopes_name_nodes() {
    let mut graph = Graph::new();
    assert_eq!(graph.current_scope(), None);
    graph.push_scope("model");
    graph.push_scope("layers");
    graph.push_scope("0");
    assert_eq!(graph.current_scope(), Some("model.layers.0".to_string()));
    let x = input_1d(&mut graph, 1);
    graph.pop_scope();
    graph.pop_scope();
    graph.pop_scope();
    graph.pop_scope();
    assert_eq!(graph.current_scope(), None);
    assert_eq!(graph.nodes[x.node_id].name, Some("model.layers.0".to_string()));
    assert_eq!(x.rank(), 1);
}

#[test]
fn linear_and_rmsnorm_shapes_of_higher_rank() {
    let mut graph = Graph::new();
    let x = SymTensor::input(&mut graph, DtypeRepr::BF16, vec![None, Some(3), Some(8)]);
    let y = teenyformers::layers::sym_linear(&mut graph, x, 8, 5);
    assert_eq!(y.shape, vec![None, Some(3), Some(5)]);
    assert_eq!(y.dtype, DtypeRepr::BF16);
    let z = teenyformers::layers::sym_rmsnorm(&mut graph, y, 5, 1e-5_f64.to_bits());
    assert_eq!(z.shape, vec![None, Some(3), Some(5)]);
    let s = teenyformers::layers::sym_add(&mut graph, &z, &z);
    assert_eq!(s.shape, z.shape);
    assert_eq!(graph.nodes[3].inputs, vec![2, 2]);
}
