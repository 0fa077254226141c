//! Transformer graphs, kernels and checkpoints, verified.
//!
//! The library traces encoder-decoder and decoder-only transformers into a
//! symbolic computation graph, describes the launch and the per-block effect of
//! every custom kernel those graphs use, and turns checkpoint bytes into
//! parameter data.
//!
//! Floating-point values are carried by their IEEE 754 bit patterns
//! ([`ieee::F32Bits`], [`ieee::F64Bits`]).

pub mod cast;
pub mod config;
pub mod decoder;
pub mod encoder;
pub mod graph;
pub mod ieee;
pub mod kernels;
pub mod layers;
pub mod llama;
pub mod loader;
pub mod transformer;

pub use config::{LlamaConfig, LlamaHFConfig, TransformerConfig};
pub use decoder::Decoder;
pub use encoder::Encoder;
pub use llama::Llama;
pub use transformer::Transformer;
