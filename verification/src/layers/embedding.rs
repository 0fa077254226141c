//! Token embedding with weight tying.
//!
//! The embedding table `E [vocab_size, d_model]` is shared between the input
//! lookup (encoder and decoder) and the output logit projection `E^T`. The lookup
//! is one custom node; the tied projection is a linear node. Both name their
//! parameter `weight`, so a checkpoint loads the same tensor into both.

use vstd::prelude::*;

use crate::cast::{low_i32, low_u32, to_i32, to_u32};
use crate::graph::{
    custom_node, handle, scope_name, CustomOp, DtypeRepr, Graph, NodeView, OpView, Shape,
    SymTensor, TensorView,
};
use crate::kernels::launch::{block_dim, Dim3, KernelArg, KernelId, Lowered, RuntimeOp, Slot};
use crate::layers::{linear_node, sym_linear};

verus! {

/// Runtime op of the lookup `ids [S]` → `[S, D]`: a gather of one table row per
/// token id.
#[derive(Clone, Copy, Debug, PartialEq, Eq, Structural)]
pub struct TokenEmbedRuntimeOp {
    pub vocab_size: usize,
    pub d_model: usize,
}

impl TokenEmbedRuntimeOp {
    pub fn n_activation_inputs(&self) -> (n: usize)
        ensures
            n == 1,
    {
        1
    }

    /// One buffer, the embedding table.
    pub fn param_shapes(&self) -> (shapes: Vec<Vec<usize>>)
        ensures
            shapes@.len() == 1,
            shapes@[0]@ == seq![self.vocab_size, self.d_model],
    {
        vec![vec![self.vocab_size, self.d_model]]
    }

    /// The table is loadable.
    pub fn param_names(&self) -> (names: &'static [&'static str])
        ensures
            names@.len() == 1,
            names@[0]@ == "weight"@,
    {
        &["weight"]
    }

    /// Arguments `(ids, weight, out, seq_len, d_model)`; `output_shape` is `[S, D]`.
    pub fn pack_args(&self, output_shape: &[usize]) -> (args: Vec<KernelArg>)
        requires
            output_shape@.len() >= 2,
        ensures
            args@ == seq![
                KernelArg::Ptr(Slot::Input(0)),
                KernelArg::Ptr(Slot::Param(0)),
                KernelArg::Ptr(Slot::Output),
                KernelArg::I32(low_i32(output_shape@[0] as int) as i32),
                KernelArg::I32(low_i32(output_shape@[1] as int) as i32),
            ],
    {
        let seq_len: i32 = to_i32(output_shape[0]);
        let d_model: i32 = to_i32(output_shape[1]);
        vec![
            KernelArg::Ptr(Slot::Input(0)),
            KernelArg::Ptr(Slot::Param(0)),
            KernelArg::Ptr(Slot::Output),
            KernelArg::I32(seq_len),
            KernelArg::I32(d_model),
        ]
    }

    pub fn block(&self) -> (b: Dim3)
        ensures
            b == block_dim(),
    {
        Dim3 { x: 128, y: 1, z: 1 }
    }

    /// One block per token.
    pub fn grid(&self, output_shape: &[usize]) -> (g: Dim3)
        requires
            output_shape@.len() >= 1,
        ensures
            g.x == low_u32(output_shape@[0] as int),
            g.y == 1,
            g.z == 1,
    {
        Dim3 { x: to_u32(output_shape[0]), y: 1, z: 1 }
    }

    /// The lookup is forward-only.
    pub fn has_backward(&self) -> (b: bool)
        ensures
            !b,
    {
        false
    }
}

/// Graph node of the lookup: `ids [S]` → `x [S, D]`.
#[derive(Clone, Copy, Debug, PartialEq, Eq, Structural)]
pub struct TokenEmbedOp {
    pub vocab_size: usize,
    pub d_model: usize,
}

impl TokenEmbedOp {
    pub fn new(vocab_size: usize, d_model: usize) -> (r: Self)
        ensures
            r == (TokenEmbedOp { vocab_size, d_model }),
    {
        TokenEmbedOp { vocab_size, d_model }
    }

    pub fn custom_data(vocab_size: usize, d_model: usize) -> (r: CustomOp)
        ensures
            r == CustomOp::TokenEmbed(TokenEmbedOp { vocab_size, d_model }),
    {
        CustomOp::TokenEmbed(Self::new(vocab_size, d_model))
    }

    pub fn name(&self) -> (s: &'static str)
        ensures
            s@ == "token_embed"@,
    {
        "token_embed"
    }

    /// `[S, D]`; the sequence length may be dynamic.
    pub fn infer_output_shape(&self, input_shapes: &[&Shape]) -> (out: Shape)
        requires
            input_shapes@.len() >= 1,
            input_shapes@[0]@.len() >= 1,
        ensures
            out@ == seq![input_shapes@[0]@[0], Some(self.d_model)],
    {
        let seq: Option<usize> = input_shapes[0][0];
        vec![seq, Some(self.d_model)]
    }

    pub fn lower(&self) -> (l: Lowered)
        ensures
            l.kernel == KernelId::TokenEmbed,
            l.runtime_op == RuntimeOp::TokenEmbed(
                TokenEmbedRuntimeOp { vocab_size: self.vocab_size, d_model: self.d_model },
            ),
    {
        Lowered {
            kernel: KernelId::TokenEmbed,
            runtime_op: RuntimeOp::TokenEmbed(
                TokenEmbedRuntimeOp { vocab_size: self.vocab_size, d_model: self.d_model },
            ),
        }
    }
}

/// Token embedding layer.
#[derive(Clone, Copy, Debug, PartialEq, Eq, Structural)]
pub struct TokenEmbedding {
    pub vocab_size: usize,
    pub d_model: usize,
}

impl TokenEmbedding {
    pub fn new(vocab_size: usize, d_model: usize) -> (r: Self)
        ensures
            r == (TokenEmbedding { vocab_size, d_model }),
    {
        TokenEmbedding { vocab_size, d_model }
    }

    /// The node of a lookup of `ids`.
    pub open spec fn lookup_node(self, scope: Seq<Seq<char>>, ids: TensorView) -> NodeView {
        custom_node(
            scope,
            CustomOp::TokenEmbed(
                TokenEmbedOp { vocab_size: self.vocab_size, d_model: self.d_model },
            ),
            ids,
            Seq::empty(),
            Some(DtypeRepr::F32),
        )
    }

    /// Records the lookup `ids [S]` → `[S, D]`, single precision.
    pub fn forward(&self, graph: &mut Graph, ids: SymTensor) -> (t: SymTensor)
        requires
            ids@.shape.len() >= 1,
        ensures
            final(graph)@ == old(graph)@.extended(
                seq![self.lookup_node(old(graph)@.scope, ids@)],
            ),
            t@ == handle(old(graph)@.nodes.len(), self.lookup_node(old(graph)@.scope, ids@)),
    {
        let data = TokenEmbedOp::custom_data(self.vocab_size, self.d_model);
        let t = ids.record_custom(graph, data, &[], Some(DtypeRepr::F32));
        assert(Seq::<&SymTensor>::empty().map_values(|t: &SymTensor| t@.node) =~= Seq::empty());
        t
    }

    /// Records the tied output projection `x [S, D]` → logits `[S, vocab_size]`,
    /// that is `x · E^T` for the embedding table `E`.
    pub fn output_proj(&self, graph: &mut Graph, x: SymTensor) -> (t: SymTensor)
        requires
            x@.shape.len() >= 1,
        ensures
            final(graph)@ == old(graph)@.extended(
                seq![linear_node(old(graph)@.scope, x@, self.d_model, self.vocab_size)],
            ),
            t@ == handle(
                old(graph)@.nodes.len(),
                linear_node(old(graph)@.scope, x@, self.d_model, self.vocab_size),
            ),
    {
        sym_linear(graph, x, self.d_model, self.vocab_size)
    }
}

/// A lookup reads the ids alone, in a table of the layer's extent, and gives single
/// precision rows of `d_model`.
pub proof fn lookups_read_the_ids(layer: TokenEmbedding, scope: Seq<Seq<char>>, ids: TensorView)
    requires
        ids.shape.len() >= 1,
    ensures
        ({
            let n = layer.lookup_node(scope, ids);
            &&& n.op == OpView::Custom(
                CustomOp::TokenEmbed(
                    TokenEmbedOp { vocab_size: layer.vocab_size, d_model: layer.d_model },
                ),
            )
            &&& n.inputs == seq![ids.node]
            &&& n.dtype == DtypeRepr::F32
            &&& n.shape == seq![ids.shape[0], Some(layer.d_model)]
            &&& n.name == scope_name(scope)
        }),
{
    assert(layer.lookup_node(scope, ids).inputs =~= seq![ids.node]);
    assert(layer.lookup_node(scope, ids).shape =~= seq![ids.shape[0], Some(layer.d_model)]);
}

} // verus!
