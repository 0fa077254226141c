# teenyformers

Transformer models as computation graphs, with the tiled kernels, runtime
operations and checkpoint loading they need. The library in `src/` is verified
with Verus: every function states what it returns, and the proofs are part of
the source.

## Layout

- `src/graph.rs`: the graph that models are recorded in, and its view.
- `src/layers/`: attention, feed-forward, embedding and the blocks built from
  them. Each layer has a `nodes` table that says which nodes `forward` appends.
- `src/encoder.rs`, `src/decoder.rs`, `src/transformer.rs`, `src/llama.rs`: the
  stacks of blocks.
- `src/config.rs`: model configurations and the rules that derive their widths.
- `src/kernels/`: the tiled kernels (rotary embedding, flash attention, SwiGLU,
  fused add and RMS norm, embedding lookup, head transposes), the graph
  operations that name them and the runtime operations that launch them.
  A kernel returns a trace: the expression that each output cell is set to.
  `exact.rs` gives expressions a value over the reals, which is what laws such as
  "causal attention is a softmax" speak of.
- `src/ieee.rs`: conversions between floating-point formats, on bit patterns.
- `src/loader.rs`: reading checkpoints and finding the tensor of a parameter.
- `tests/`: tests of the library through its public interface.
- `app/`: the parts around the library that touch files, JSON and devices.

## What is trusted

Verus believes the contracts of the functions marked
`#[verifier::external_body]`: the output shapes of `teeny_core`'s `Linear` and
`RmsNorm` in `src/layers/mod.rs`, and reading a safetensors buffer, its header and its errors
in `src/loader.rs`. Each says what is claimed of the outside function.
