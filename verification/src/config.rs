//! Model configurations.

use vstd::prelude::*;

use crate::ieee::{
    f64_narrowed, f64_to_f32, inv_sqrt, narrowing_rounds_to_nearest, softmax_scale_bits, F32Bits,
    F64Bits,
};

verus! {

/// `1e-6`, single precision.
pub const F32_1E_MINUS_6: F32Bits = 0x3586_37BD;

/// `1e-5`, double precision.
pub const F64_1E_MINUS_5: F64Bits = 0x3EE4_F8B5_88E3_68F1;

/// `10 000.0`, single precision.
pub const F32_10_000: F32Bits = 0x461C_4000;

/// `10 000.0`, double precision.
pub const F64_10_000: F64Bits = 0x40C3_8800_0000_0000;

/// The SwiGLU width of the LLaMA formula, `ceil(8/3 · d_model / 64) · 64`.
pub open spec fn swiglu_width(d_model: nat) -> nat {
    (8 * d_model + 191) / 192 * 64
}

/// The SwiGLU width is the least multiple of 64 that is at least `8/3 · d_model`.
pub proof fn swiglu_width_is_least(d_model: nat, width: nat)
    requires
        width % 64 == 0,
        3 * width >= 8 * d_model,
    ensures
        swiglu_width(d_model) % 64 == 0,
        3 * swiglu_width(d_model) >= 8 * d_model,
        swiglu_width(d_model) <= width,
{
}

/// The quotient, rounded up.
fn div_ceil(a: usize, b: usize) -> (q: usize)
    requires
        b > 1,
    ensures
        q == (a + b - 1) / b as int,
        q <= a,
{
    let q: usize = a / b;
    let r: usize = a % b;
    proof {
        let (a, b, q, r) = (a as int, b as int, q as int, r as int);
        vstd::arithmetic::div_mod::lemma_fundamental_div_mod(a, b);
        if r > 0 {
            assert(a + b - 1 == (q + 1) * b + (r - 1)) by (nonlinear_arith)
                requires
                    a == b * q + r,
            ;
            vstd::arithmetic::div_mod::lemma_fundamental_div_mod_converse(
                a + b - 1,
                b,
                q + 1,
                r - 1,
            );
        } else {
            assert(a + b - 1 == q * b + (b - 1)) by (nonlinear_arith)
                requires
                    a == b * q,
            ;
            vstd::arithmetic::div_mod::lemma_fundamental_div_mod_converse(a + b - 1, b, q, b - 1);
        }
        assert(q >= 0);
        assert(b * q >= 2 * q) by (nonlinear_arith)
            requires
                b >= 2,
                q >= 0,
        ;
    }
    if r > 0 {
        q + 1
    } else {
        q
    }
}

fn llama_width(d_model: usize) -> (w: usize)
    requires
        8 * d_model <= usize::MAX,
    ensures
        w == swiglu_width(d_model as nat),
{
    let raw: usize = div_ceil(8 * d_model, 3);
    div_ceil(raw, 64) * 64
}

/// Configuration for the full encoder-decoder transformer.
///
/// `d_ff` is derived rather than stored: `d_ff = ceil(8/3 * d_model / 64) * 64`.
#[derive(Clone, Copy, Debug, PartialEq, Eq, Structural)]
pub struct TransformerConfig {
    /// Token embedding / hidden dimension.
    pub d_model: usize,
    /// Number of attention heads. Must divide `d_model`.
    pub n_heads: usize,
    /// Encoder stack depth.
    pub n_encoder_layers: usize,
    /// Decoder stack depth.
    pub n_decoder_layers: usize,
    /// Vocabulary size (shared encoder/decoder/output embedding).
    pub vocab_size: usize,
    /// Maximum sequence length supported by RoPE.
    pub max_seq_len: usize,
    /// RMSNorm stability constant (default 1e-6).
    pub eps: F32Bits,
    /// RoPE base frequency (default 10 000.0).
    pub rope_base: F32Bits,
}

impl TransformerConfig {
    /// A model can be built: the heads divide the hidden dimension, and the
    /// derived widths fit a word.
    pub open spec fn valid(self) -> bool {
        &&& self.n_heads > 0
        &&& self.d_model % self.n_heads == 0
        &&& 8 * self.d_model <= usize::MAX
    }

    /// Head dimension (`d_model / n_heads`).
    pub fn head_dim(&self) -> (r: usize)
        requires
            self.n_heads > 0,
        ensures
            r == self.d_model as int / self.n_heads as int,
    {
        self.d_model / self.n_heads
    }

    /// SwiGLU intermediate width: `ceil(8/3 * d_model / 64) * 64`.
    pub fn d_ff(&self) -> (r: usize)
        requires
            8 * self.d_model <= usize::MAX,
        ensures
            r == swiglu_width(self.d_model as nat),
    {
        llama_width(self.d_model)
    }

    /// Attention softmax scale `1 / √head_dim`.
    pub fn softmax_scale(&self) -> (r: F32Bits)
        requires
            self.n_heads > 0,
        ensures
            r == softmax_scale_bits((self.d_model as int / self.n_heads as int) as nat),
    {
        inv_sqrt(self.head_dim())
    }
}

impl Default for TransformerConfig {
    fn default() -> (r: Self)
        ensures
            r == (TransformerConfig {
                d_model: 512,
                n_heads: 8,
                n_encoder_layers: 6,
                n_decoder_layers: 6,
                vocab_size: 32_000,
                max_seq_len: 2048,
                eps: F32_1E_MINUS_6,
                rope_base: F32_10_000,
            }),
    {
        TransformerConfig {
            d_model: 512,
            n_heads: 8,
            n_encoder_layers: 6,
            n_decoder_layers: 6,
            vocab_size: 32_000,
            max_seq_len: 2048,
            eps: F32_1E_MINUS_6,
            rope_base: F32_10_000,
        }
    }
}

/// Configuration for a decoder-only (Llama-style) transformer.
///
/// `d_ff` is either taken from `intermediate_size` (if set) or derived:
/// `ceil(8/3 · d_model / 64) · 64`.
#[derive(Clone, Copy, Debug, PartialEq, Eq, Structural)]
pub struct LlamaConfig {
    /// Token embedding / hidden dimension.
    pub d_model: usize,
    /// Number of attention heads. Must divide `d_model`.
    pub n_heads: usize,
    /// Number of transformer blocks.
    pub n_layers: usize,
    /// Vocabulary size.
    pub vocab_size: usize,
    /// Maximum sequence length supported by RoPE.
    pub max_seq_len: usize,
    /// RMSNorm stability constant (default 1e-5).
    pub eps: F64Bits,
    /// RoPE base frequency (default 10 000.0).
    pub rope_base: F32Bits,
    /// Explicit FFN intermediate width. When `None`, uses the LLaMA formula.
    pub intermediate_size: Option<usize>,
    /// Number of KV heads (for grouped-query attention). `None` = same as `n_heads`.
    pub n_kv_heads: Option<usize>,
}

impl LlamaConfig {
    /// The SwiGLU width of this configuration.
    pub open spec fn width(self) -> nat {
        match self.intermediate_size {
            Some(size) => size as nat,
            None => swiglu_width(self.d_model as nat),
        }
    }

    /// The SwiGLU width can be computed.
    pub open spec fn width_fits(self) -> bool {
        self.intermediate_size is Some || 8 * self.d_model <= usize::MAX
    }

    /// Head dimension (`d_model / n_heads`).
    pub fn head_dim(&self) -> (r: usize)
        requires
            self.n_heads > 0,
        ensures
            r == self.d_model as int / self.n_heads as int,
    {
        self.d_model / self.n_heads
    }

    /// SwiGLU intermediate width: `intermediate_size` if set, otherwise
    /// `ceil(8/3 · d_model / 64) · 64`.
    pub fn d_ff(&self) -> (r: usize)
        requires
            self.width_fits(),
        ensures
            r == self.width(),
    {
        if let Some(size) = self.intermediate_size {
            return size;
        }
        llama_width(self.d_model)
    }

    /// Attention softmax scale `1 / √head_dim`.
    pub fn softmax_scale(&self) -> (r: F32Bits)
        requires
            self.n_heads > 0,
        ensures
            r == softmax_scale_bits((self.d_model as int / self.n_heads as int) as nat),
    {
        inv_sqrt(self.head_dim())
    }

    /// Number of KV heads (defaults to `n_heads` for standard multi-head attention).
    pub fn n_kv_heads(&self) -> (r: usize)
        ensures
            r == (match self.n_kv_heads {
                Some(n) => n,
                None => self.n_heads,
            }),
    {
        match self.n_kv_heads {
            Some(n) => n,
            None => self.n_heads,
        }
    }
}

impl Default for LlamaConfig {
    fn default() -> (r: Self)
        ensures
            r == (LlamaConfig {
                d_model: 4096,
                n_heads: 32,
                n_layers: 32,
                vocab_size: 32_000,
                max_seq_len: 4096,
                eps: F64_1E_MINUS_5,
                rope_base: F32_10_000,
                intermediate_size: None,
                n_kv_heads: None,
            }),
    {
        LlamaConfig {
            d_model: 4096,
            n_heads: 32,
            n_layers: 32,
            vocab_size: 32_000,
            max_seq_len: 4096,
            eps: F64_1E_MINUS_5,
            rope_base: F32_10_000,
            intermediate_size: None,
            n_kv_heads: None,
        }
    }
}

/// Subset of HuggingFace `config.json` fields needed to reconstruct a
/// [`LlamaConfig`].
#[derive(Clone, Copy, Debug, PartialEq, Eq, Structural)]
pub struct LlamaHFConfig {
    pub hidden_size: usize,
    pub num_attention_heads: usize,
    pub num_hidden_layers: usize,
    pub vocab_size: usize,
    /// Defaults to [`default_max_position_embeddings`].
    pub max_position_embeddings: usize,
    /// Defaults to [`default_rms_norm_eps`].
    pub rms_norm_eps: F64Bits,
    /// Defaults to [`default_rope_theta`].
    pub rope_theta: F64Bits,
    pub intermediate_size: Option<usize>,
    pub num_key_value_heads: Option<usize>,
}

/// The sequence limit of a `config.json` that gives none.
pub fn default_max_position_embeddings() -> (r: usize)
    ensures
        r == 4096,
{
    4096
}

/// The stability constant of a `config.json` that gives none: `1e-5`.
pub fn default_rms_norm_eps() -> (r: F64Bits)
    ensures
        r == F64_1E_MINUS_5,
{
    F64_1E_MINUS_5
}

/// The RoPE base of a `config.json` that gives none: `10 000.0`.
pub fn default_rope_theta() -> (r: F64Bits)
    ensures
        r == F64_10_000,
{
    F64_10_000
}

impl LlamaHFConfig {
    /// The model configuration that these fields stand for.
    pub open spec fn llama(self) -> LlamaConfig {
        LlamaConfig {
            d_model: self.hidden_size,
            n_heads: self.num_attention_heads,
            n_layers: self.num_hidden_layers,
            vocab_size: self.vocab_size,
            max_seq_len: self.max_position_embeddings,
            eps: self.rms_norm_eps,
            rope_base: f64_narrowed(self.rope_theta) as u32,
            intermediate_size: self.intermediate_size,
            n_kv_heads: self.num_key_value_heads,
        }
    }
}

impl vstd::std_specs::convert::FromSpecImpl<LlamaHFConfig> for LlamaConfig {
    open spec fn obeys_from_spec() -> bool {
        true
    }

    open spec fn from_spec(hf: LlamaHFConfig) -> LlamaConfig {
        hf.llama()
    }
}

impl From<LlamaHFConfig> for LlamaConfig {
    fn from(hf: LlamaHFConfig) -> (r: Self) {
        LlamaConfig {
            d_model: hf.hidden_size,
            n_heads: hf.num_attention_heads,
            n_layers: hf.num_hidden_layers,
            vocab_size: hf.vocab_size,
            max_seq_len: hf.max_position_embeddings,
            eps: hf.rms_norm_eps,
            rope_base: f64_to_f32(hf.rope_theta),
            intermediate_size: hf.intermediate_size,
            n_kv_heads: hf.num_key_value_heads,
        }
    }
}

/// The configuration of a `config.json` takes each field from the one of its meaning; the
/// RoPE base is rounded to single precision.
pub proof fn fields_by_meaning(hf: LlamaHFConfig)
    ensures
        ({
            let r = <LlamaConfig as vstd::std_specs::convert::FromSpec<LlamaHFConfig>>::from_spec(
                hf,
            );
            &&& r == hf.llama()
            &&& r.d_model == hf.hidden_size
            &&& r.n_heads == hf.num_attention_heads
            &&& r.n_layers == hf.num_hidden_layers
            &&& r.vocab_size == hf.vocab_size
            &&& r.max_seq_len == hf.max_position_embeddings
            &&& r.eps == hf.rms_norm_eps
            &&& r.rope_base == f64_narrowed(hf.rope_theta)
            &&& r.intermediate_size == hf.intermediate_size
            &&& r.n_kv_heads == hf.num_key_value_heads
        }),
{
    narrowing_rounds_to_nearest(hf.rope_theta);
}

/// The SwiGLU width is the explicit one where it is set, and otherwise the least multiple
/// of 64 that is at least `8/3 · d_model`.
pub proof fn width_is_explicit_or_least(cfg: LlamaConfig, width: nat)
    ensures
        cfg.intermediate_size matches Some(size) ==> cfg.width() == size,
        cfg.intermediate_size is None ==> {
            &&& cfg.width() % 64 == 0
            &&& 3 * cfg.width() >= 8 * cfg.d_model
            &&& width % 64 == 0 && 3 * width >= 8 * cfg.d_model ==> cfg.width() <= width
        },
        cfg.width_fits() <==> cfg.intermediate_size is Some || 8 * cfg.d_model <= usize::MAX,
{
}

/// A model can be built exactly where the heads divide the hidden dimension and eight times
/// that dimension fits a word.
pub proof fn what_can_be_built(cfg: TransformerConfig)
    ensures
        cfg.valid() <==> cfg.n_heads > 0 && cfg.d_model % cfg.n_heads == 0 && 8 * cfg.d_model
            <= usize::MAX,
{
}

} // verus!
