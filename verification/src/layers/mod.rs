//! The layers of the transformer graphs.
//!
//! A layer records its nodes into a [`Graph`]. Its contract lists them: which
//! nodes are appended, with which producers, shapes and names, and which of them
//! the returned handle stands for.

pub mod attention;
pub mod decoder_block;
pub mod embedding;
pub mod encoder_block;
pub mod ffn;
pub mod llama_block;

pub use attention::{AttentionKind, MultiHeadAttention};
pub use decoder_block::DecoderBlock;
pub use embedding::TokenEmbedding;
pub use encoder_block::EncoderBlock;
pub use ffn::FeedForward;
pub use llama_block::LlamaBlock;

use vstd::prelude::*;

use crate::graph::{
    copy_shape, handle, scope_name, Graph, NodeView, Op, OpView, Shape, SymTensor, TensorView,
};
use crate::ieee::F64Bits;

verus! {

/// The shape with its last dimension replaced by `out_features`.
pub open spec fn linear_shape(shape: Seq<Option<usize>>, out_features: usize) -> Seq<
    Option<usize>,
> {
    shape.drop_last().push(Some(out_features))
}

/// The shape that `teeny_core` infers for a bias-free linear layer: the trace of
/// `teeny_core::nn::linear::Linear` (`teeny_core::nn::Layer::call`) on a symbolic
/// input of shape `shape`.
///
/// The contract claims that the layer keeps every dimension but the last, which
/// becomes `out_features`. The element type is a phantom parameter of the layer.
#[verifier::external_body]
fn linear_output_shape(shape: &Shape, in_features: usize, out_features: usize) -> (out: Shape)
    requires
        shape@.len() >= 1,
    ensures
        out@ == linear_shape(shape@, out_features),
{
    let dtype = teeny_core::graph::DtypeRepr::F32;
    let (x, _graph) = teeny_core::graph::SymTensor::input(dtype, shape.clone());
    let layer = teeny_core::nn::linear::Linear::<
        i32,
        teeny_core::graph::SymTensor,
        teeny_core::graph::SymTensor,
        2,
    >::new(in_features, out_features, false);
    teeny_core::nn::Layer::call(&layer, x).shape
}

/// The shape that `teeny_core` infers for an RMS normalisation over the last
/// dimension: the trace of `teeny_core::nn::rmsnorm::RmsNorm`
/// (`teeny_core::nn::Layer::call`) on a symbolic input of shape `shape`.
///
/// The contract claims that the layer keeps the shape. The stability constant,
/// which has no say in it, is left at its default.
#[verifier::external_body]
fn rmsnorm_output_shape(shape: &Shape, dim: usize) -> (out: Shape)
    ensures
        out@ == shape@,
{
    let dtype = teeny_core::graph::DtypeRepr::F32;
    let (x, _graph) = teeny_core::graph::SymTensor::input(dtype, shape.clone());
    let layer = teeny_core::nn::rmsnorm::RmsNorm::<
        i32,
        teeny_core::graph::SymTensor,
        teeny_core::graph::SymTensor,
        2,
    >::new(vec![dim]);
    teeny_core::nn::Layer::call(&layer, x).shape
}

/// The node of a bias-free projection of `x`.
pub open spec fn linear_node(
    scope: Seq<Seq<char>>,
    x: TensorView,
    in_features: usize,
    out_features: usize,
) -> NodeView {
    NodeView {
        op: OpView::Linear { in_features, out_features, has_bias: false },
        inputs: seq![x.node],
        dtype: x.dtype,
        shape: linear_shape(x.shape, out_features),
        name: scope_name(scope),
    }
}

/// The node of an RMS normalisation of `x` over a last dimension of `dim` elements.
pub open spec fn rmsnorm_node(
    scope: Seq<Seq<char>>,
    x: TensorView,
    dim: usize,
    eps: F64Bits,
) -> NodeView {
    NodeView {
        op: OpView::RmsNorm { normalized_shape: seq![dim], eps, affine: true },
        inputs: seq![x.node],
        dtype: x.dtype,
        shape: x.shape,
        name: scope_name(scope),
    }
}

/// The node of the sum of `a` and `b`.
pub open spec fn add_node(scope: Seq<Seq<char>>, a: TensorView, b: TensorView) -> NodeView {
    NodeView {
        op: OpView::Add,
        inputs: seq![a.node, b.node],
        dtype: a.dtype,
        shape: a.shape,
        name: scope_name(scope),
    }
}

/// Records an element-wise addition. Both tensors belong to `graph` and share
/// shape and element type; the node takes them from `a`.
pub fn sym_add(graph: &mut Graph, a: &SymTensor, b: &SymTensor) -> (t: SymTensor)
    ensures
        final(graph)@ == old(graph)@.extended(seq![add_node(old(graph)@.scope, a@, b@)]),
        t@ == handle(old(graph)@.nodes.len(), add_node(old(graph)@.scope, a@, b@)),
{
    let inputs: Vec<usize> = vec![a.node_id, b.node_id];
    assert(inputs@.map_values(|i: usize| i as nat) =~= seq![a@.node, b@.node]);
    let node_id: usize = graph.add_node(Op::Add, inputs, a.dtype, copy_shape(&a.shape));
    SymTensor { node_id, dtype: a.dtype, shape: copy_shape(&a.shape) }
}

/// Records a projection without bias.
pub fn sym_linear(
    graph: &mut Graph,
    x: SymTensor,
    in_features: usize,
    out_features: usize,
) -> (t: SymTensor)
    requires
        x@.shape.len() >= 1,
    ensures
        final(graph)@ == old(graph)@.extended(
            seq![linear_node(old(graph)@.scope, x@, in_features, out_features)],
        ),
        t@ == handle(
            old(graph)@.nodes.len(),
            linear_node(old(graph)@.scope, x@, in_features, out_features),
        ),
{
    let inputs: Vec<usize> = vec![x.node_id];
    assert(inputs@.map_values(|i: usize| i as nat) =~= seq![x@.node]);
    let shape: Shape = linear_output_shape(&x.shape, in_features, out_features);
    let kept: Shape = copy_shape(&shape);
    let op = Op::Linear { in_features, out_features, has_bias: false };
    let node_id: usize = graph.add_node(op, inputs, x.dtype, shape);
    SymTensor { node_id, dtype: x.dtype, shape: kept }
}

/// Records an RMS normalisation.
pub fn sym_rmsnorm(graph: &mut Graph, x: SymTensor, dim: usize, eps: F64Bits) -> (t: SymTensor)
    ensures
        final(graph)@ == old(graph)@.extended(
            seq![rmsnorm_node(old(graph)@.scope, x@, dim, eps)],
        ),
        t@ == handle(old(graph)@.nodes.len(), rmsnorm_node(old(graph)@.scope, x@, dim, eps)),
{
    let inputs: Vec<usize> = vec![x.node_id];
    assert(inputs@.map_values(|i: usize| i as nat) =~= seq![x@.node]);
    let shape: Shape = rmsnorm_output_shape(&x.shape, dim);
    let kept: Shape = copy_shape(&shape);
    let normalized_shape: Vec<usize> = vec![dim];
    assert(normalized_shape@ =~= seq![dim]);
    let op = Op::RmsNorm { normalized_shape, eps, affine: true };
    let node_id: usize = graph.add_node(op, inputs, x.dtype, shape);
    SymTensor { node_id, dtype: x.dtype, shape: kept }
}

/// A projection reads its input alone, has no bias, maps `in_features` to `out_features`,
/// and changes the last dimension only.
pub proof fn projections_read_their_input(
    scope: Seq<Seq<char>>,
    x: TensorView,
    in_features: usize,
    out_features: usize,
)
    requires
        x.shape.len() >= 1,
    ensures
        ({
            let n = linear_node(scope, x, in_features, out_features);
            &&& n.op == OpView::Linear { in_features, out_features, has_bias: false }
            &&& n.inputs == seq![x.node]
            &&& n.dtype == x.dtype
            &&& n.shape.len() == x.shape.len()
            &&& n.shape.last() == Some(out_features)
            &&& forall|i: int| 0 <= i < x.shape.len() - 1 ==> n.shape[i] == #[trigger] x.shape[i]
            &&& n.name == scope_name(scope)
        }),
{
}

/// A normalisation reads its input alone, runs over a last dimension of `dim` with a
/// learned weight and the given stability constant, and keeps shape and element type.
pub proof fn norms_read_their_input(
    scope: Seq<Seq<char>>,
    x: TensorView,
    dim: usize,
    eps: F64Bits,
)
    ensures
        ({
            let n = rmsnorm_node(scope, x, dim, eps);
            &&& n.op == OpView::RmsNorm { normalized_shape: seq![dim], eps, affine: true }
            &&& n.inputs == seq![x.node]
            &&& n.dtype == x.dtype
            &&& n.shape == x.shape
            &&& n.name == scope_name(scope)
        }),
{
}

/// A sum reads both summands, in order, and takes shape and element type of the first.
pub proof fn sums_read_both(scope: Seq<Seq<char>>, a: TensorView, b: TensorView)
    ensures
        ({
            let n = add_node(scope, a, b);
            &&& n.op == OpView::Add
            &&& n.inputs == seq![a.node, b.node]
            &&& n.dtype == a.dtype
            &&& n.shape == a.shape
            &&& n.name == scope_name(scope)
        }),
{
}

/// What a layer asks for to be recorded: that the merged heads and the fused projection of
/// each of its parts fit a word, and nothing else.
pub proof fn layers_ask_for_words(
    attn: MultiHeadAttention,
    ffn: FeedForward,
    encoder: EncoderBlock,
    decoder: DecoderBlock,
    llama: LlamaBlock,
)
    ensures
        attn.n_heads * attn.head_dim <= usize::MAX ==> attn.fits(),
        2 * ffn.d_ff <= usize::MAX ==> ffn.fits(),
        ({
            let (a, f) = (encoder.self_attn, encoder.ffn);
            a.n_heads * a.head_dim <= usize::MAX && 2 * f.d_ff <= usize::MAX ==> encoder.fits()
        }),
        ({
            let (a, c, f) = (decoder.self_attn, decoder.cross_attn, decoder.ffn);
            a.n_heads * a.head_dim <= usize::MAX && c.n_heads * c.head_dim <= usize::MAX && 2
                * f.d_ff <= usize::MAX ==> decoder.fits()
        }),
        ({
            let (a, f) = (llama.self_attn, llama.ffn);
            a.n_heads * a.head_dim <= usize::MAX && 2 * f.d_ff <= usize::MAX ==> llama.fits()
        }),
{
}

} // verus!
