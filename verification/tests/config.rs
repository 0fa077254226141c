//! Configurations and their derived widths.

use teenyformers::config::{
    default_max_position_embeddings, default_rms_norm_eps, default_rope_theta,
};
use teenyformers::{LlamaConfig, LlamaHFConfig, TransformerConfig};

#[test]
fn test_d_ff_multiples_of_64() {
    let cfg = TransformerConfig { d_model: 128, ..Default::default() };
    assert_eq!(cfg.d_ff() % 64, 0);
    // 8/3 * 128 = 341.3 → ceil to nearest 64 multiple = 384
    assert_eq!(cfg.d_ff(), 384);
}

#[test]
fn test_head_dim() {
    let cfg = TransformerConfig { d_model: 512, n_heads: 8, ..Default::default() };
    assert_eq!(cfg.head_dim(), 64);
}

#[test]
fn test_config_d_ff_rounding() {
    let cfg = TransformerConfig { d_model: 512, ..Default::default() };
    assert_eq!(cfg.d_ff() % 64, 0);

    let cfg2 = TransformerConfig { d_model: 128, ..Default::default() };
    assert_eq!(cfg2.d_ff(), 384); // 8/3 * 128 ≈ 341.3 → ceil to multiple of 64 = 384
}

#[test]
fn test_config_head_dim() {
    let cfg = TransformerConfig { d_model: 512, n_heads: 8, ..Default::default() };
    assert_eq!(cfg.head_dim(), 64);
}

#[test]
fn d_ff_is_the_least_multiple() {
    for d_model in 0..2000 {
        let cfg = TransformerConfig { d_model, ..Default::default() };
        let w = cfg.d_ff();
        assert_eq!(w % 64, 0);
        assert!(3 * w >= 8 * d_model);
        assert!(w == 0 || 3 * (w - 64) < 8 * d_model);
    }
}

#[test]
fn transformer_defaults() {
    let cfg = TransformerConfig::default();
    assert_eq!(cfg.d_model, 512);
    assert_eq!(cfg.n_heads, 8);
    assert_eq!(cfg.n_encoder_layers, 6);
    assert_eq!(cfg.n_decoder_layers, 6);
    assert_eq!(cfg.vocab_size, 32_000);
    assert_eq!(cfg.max_seq_len, 2048);
    assert_eq!(f32::from_bits(cfg.eps), 1e-6);
    assert_eq!(f32::from_bits(cfg.rope_base), 10_000.0);
    assert_eq!(f32::from_bits(cfg.softmax_scale()), 0.125);
}

#[test]
fn llama_defaults() {
    let cfg = LlamaConfig::default();
    assert_eq!(cfg.d_model, 4096);
    assert_eq!(cfg.n_heads, 32);
    assert_eq!(cfg.n_layers, 32);
    assert_eq!(cfg.vocab_size, 32_000);
    assert_eq!(cfg.max_seq_len, 4096);
    assert_eq!(f64::from_bits(cfg.eps), 1e-5);
    assert_eq!(f32::from_bits(cfg.rope_base), 10_000.0);
    assert_eq!(cfg.head_dim(), 128);
    assert_eq!(cfg.d_ff(), 10_944);
    assert_eq!(cfg.n_kv_heads(), 32);
    assert_eq!(cfg.softmax_scale(), (1.0_f32 / 128.0_f32.sqrt()).to_bits());
}

#[test]
fn llama_explicit_widths() {
    let cfg = LlamaConfig {
        intermediate_size: Some(11_008),
        n_kv_heads: Some(8),
        ..Default::default()
    };
    assert_eq!(cfg.d_ff(), 11_008);
    assert_eq!(cfg.n_kv_heads(), 8);
}

#[test]
fn hf_config_fields() {
    assert_eq!(default_max_position_embeddings(), 4096);
    assert_eq!(f64::from_bits(default_rms_norm_eps()), 1e-5);
    assert_eq!(f64::from_bits(default_rope_theta()), 10_000.0);
    let hf = LlamaHFConfig {
        hidden_size: 2048,
        num_attention_heads: 16,
        num_hidden_layers: 22,
        vocab_size: 128_256,
        max_position_embeddings: 8192,
        rms_norm_eps: 1e-6_f64.to_bits(),
        rope_theta: 500_000.1_f64.to_bits(),
        intermediate_size: Some(5632),
        num_key_value_heads: Some(4),
    };
    let cfg = LlamaConfig::from(hf);
    assert_eq!(cfg.d_model, 2048);
    assert_eq!(cfg.n_heads, 16);
    assert_eq!(cfg.n_layers, 22);
    assert_eq!(cfg.vocab_size, 128_256);
    assert_eq!(cfg.max_seq_len, 8192);
    assert_eq!(f64::from_bits(cfg.eps), 1e-6);
    assert_eq!(f32::from_bits(cfg.rope_base), 500_000.1_f64 as f32);
    assert_eq!(cfg.intermediate_size, Some(5632));
    assert_eq!(cfg.n_kv_heads, Some(4));
}
