//! Transformer encoder block (pre-norm, bidirectional self-attention + SwiGLU FFN).
//!
//! ```text
//! x ─── RMSNorm ─── SelfAttn ─── Add ─── RMSNorm ─── FFN ─── Add ─── out
//!  └──────────────────────────────┘  └────────────────────────────────┘
//!           (residual)                           (residual)
//! ```

use vstd::prelude::*;

use crate::graph::{
    depends, handle, holds_run, lemma_depends_trans, lemma_extended, lemma_ordered,
    lemma_part_of_run, lemma_run_input, ordered, scope_name, Graph, NodeView, OpView, SymTensor,
    TensorView,
};
use crate::ieee::{F32Bits, F64Bits};
use crate::layers::{
    add_node, rmsnorm_node, sym_add, sym_rmsnorm, AttentionKind, FeedForward, MultiHeadAttention,
};

verus! {

/// One encoder block.
#[derive(Clone, Copy, Debug, PartialEq, Eq, Structural)]
pub struct EncoderBlock {
    pub self_attn: MultiHeadAttention,
    pub ffn: FeedForward,
    pub d_model: usize,
    pub eps: F64Bits,
}

impl EncoderBlock {
    /// The block with bidirectional attention.
    pub open spec fn of(
        d_model: usize,
        n_heads: usize,
        d_ff: usize,
        rope_base: F32Bits,
        eps: F64Bits,
    ) -> Self {
        EncoderBlock {
            self_attn: MultiHeadAttention::of(
                d_model,
                n_heads,
                rope_base,
                AttentionKind::Bidirectional,
            ),
            ffn: FeedForward { d_model, d_ff },
            d_model,
            eps,
        }
    }

    /// Derived widths fit a word.
    pub open spec fn fits(self) -> bool {
        self.self_attn.fits() && self.ffn.fits()
    }

    pub fn new(d_model: usize, n_heads: usize, d_ff: usize, rope_base: F32Bits, eps: F64Bits) -> (r:
        Self)
        requires
            n_heads > 0,
            d_model % n_heads == 0,
        ensures
            r == Self::of(d_model, n_heads, d_ff, rope_base, eps),
            r.d_model == d_model && r.eps == eps,
            r.self_attn.d_model == d_model && r.self_attn.n_heads == n_heads,
            r.self_attn.rope_base == rope_base && r.self_attn.kind == AttentionKind::Bidirectional,
            r.ffn.d_model == d_model && r.ffn.d_ff == d_ff,
            r.self_attn.wf(),
    {
        EncoderBlock {
            self_attn: MultiHeadAttention::new(
                d_model,
                n_heads,
                rope_base,
                AttentionKind::Bidirectional,
            ),
            ffn: FeedForward::new(d_model, d_ff),
            d_model,
            eps,
        }
    }

    /// The nodes that the block records on `x`, the first of them at `base`.
    #[verifier::opaque]
    pub open spec fn nodes(self, base: nat, scope: Seq<Seq<char>>, x: TensorView) -> Seq<NodeView> {
        let norm1 = rmsnorm_node(scope, x, self.d_model, self.eps);
        let h = handle(base, norm1);
        let attn_out = self.self_attn.output(base + 1, scope, h, h, h);
        let add1 = add_node(scope, x, attn_out);
        let x2 = handle(base + 12, add1);
        let norm2 = rmsnorm_node(scope, x2, self.d_model, self.eps);
        let ffn_out = self.ffn.output(base + 14, scope, handle(base + 13, norm2));
        let add2 = add_node(scope, x2, ffn_out);
        seq![norm1] + self.self_attn.nodes(base + 1, scope, h, h, h) + seq![add1] + seq![
            norm2,
        ] + self.ffn.nodes(base + 14, scope, handle(base + 13, norm2)) + seq![add2]
    }

    /// The handle on the last of [`Self::nodes`].
    pub open spec fn output(self, base: nat, scope: Seq<Seq<char>>, x: TensorView) -> TensorView {
        handle(base + 17, self.nodes(base, scope, x).last())
    }

    /// The block records eighteen nodes.
    pub broadcast proof fn nodes_len(self, base: nat, scope: Seq<Seq<char>>, x: TensorView)
        ensures
            #[trigger] self.nodes(base, scope, x).len() == 18,
    {
        broadcast use {MultiHeadAttention::nodes_len, FeedForward::nodes_len};

        reveal(EncoderBlock::nodes);
    }

    /// The block keeps shape and element type.
    pub broadcast proof fn output_shape(self, base: nat, scope: Seq<Seq<char>>, x: TensorView)
        ensures
            #![trigger self.output(base, scope, x)]
            self.output(base, scope, x).shape == x.shape,
            self.output(base, scope, x).dtype == x.dtype,
    {
        reveal(EncoderBlock::nodes);
    }

    /// Every node of the block reads its input or nodes of the block before it.
    pub proof fn nodes_in_order(self, base: nat, scope: Seq<Seq<char>>, x: TensorView)
        requires
            x.node < base,
        ensures
            ordered(self.nodes(base, scope, x), base),
    {
        broadcast use {lemma_ordered, MultiHeadAttention::nodes_len, FeedForward::nodes_len};

        reveal(EncoderBlock::nodes);
        let norm1 = rmsnorm_node(scope, x, self.d_model, self.eps);
        let h = handle(base, norm1);
        self.self_attn.nodes_in_order(base + 1, scope, h, h, h);
        let add1 = add_node(scope, x, self.self_attn.output(base + 1, scope, h, h, h));
        let x2 = handle(base + 12, add1);
        let norm2 = rmsnorm_node(scope, x2, self.d_model, self.eps);
        let h2 = handle(base + 13, norm2);
        self.ffn.nodes_in_order(base + 14, scope, h2);
        let add2 = add_node(scope, x2, self.ffn.output(base + 14, scope, h2));
        assert(ordered(seq![norm1], base));
        assert(ordered(seq![add1], base + 12));
        assert(ordered(seq![norm2], base + 13));
        assert(ordered(seq![add2], base + 17));
    }

    /// The dataflow of the block, with both residual connections: attention reads the
    /// normalised input as queries, keys and values, and its output is added to the input;
    /// the feed-forward network reads the normalised sum, and its output is added to the
    /// sum.
    pub proof fn dataflow(self, base: nat, scope: Seq<Seq<char>>, x: TensorView)
        ensures
            ({
                let n = self.nodes(base, scope, x);
                let norm = OpView::RmsNorm {
                    normalized_shape: seq![self.d_model],
                    eps: self.eps,
                    affine: true,
                };
                let h = TensorView { node: base, dtype: x.dtype, shape: x.shape };
                let h2 = TensorView { node: base + 13, dtype: x.dtype, shape: x.shape };
                &&& n.len() == 18
                &&& n[0].op == norm && n[0].inputs == seq![x.node]
                &&& n.subrange(1, 12) == self.self_attn.nodes(base + 1, scope, h, h, h)
                &&& n[12].op == OpView::Add && n[12].inputs == seq![x.node, base + 11]
                &&& n[13].op == norm && n[13].inputs == seq![base + 12]
                &&& n.subrange(14, 17) == self.ffn.nodes(base + 14, scope, h2)
                &&& n[17].op == OpView::Add && n[17].inputs == seq![base + 12, base + 16]
                &&& n[0].name == scope_name(scope) && n[12].name == scope_name(scope)
                &&& n[13].name == scope_name(scope) && n[17].name == scope_name(scope)
                &&& n[0].shape == x.shape && n[0].dtype == x.dtype
                &&& n[12].shape == x.shape && n[12].dtype == x.dtype
                &&& n[13].shape == x.shape && n[13].dtype == x.dtype
                &&& n[17].shape == x.shape && n[17].dtype == x.dtype
                &&& self.output(base, scope, x).node == base + 17
            }),
    {
        broadcast use {MultiHeadAttention::nodes_len, FeedForward::nodes_len};

        reveal(EncoderBlock::nodes);
        let n = self.nodes(base, scope, x);
        let h = TensorView { node: base, dtype: x.dtype, shape: x.shape };
        let h2 = TensorView { node: base + 13, dtype: x.dtype, shape: x.shape };
        assert(n.subrange(1, 12) =~= self.self_attn.nodes(base + 1, scope, h, h, h));
        assert(n.subrange(14, 17) =~= self.ffn.nodes(base + 14, scope, h2));
    }

    /// In a graph that holds the block's nodes, its output depends on its input, also
    /// through attention and through the feed-forward network.
    pub proof fn output_depends_on_input(
        self,
        all: Seq<NodeView>,
        base: nat,
        scope: Seq<Seq<char>>,
        x: TensorView,
    )
        requires
            2 * self.ffn.d_ff <= usize::MAX,
            holds_run(all, base, self.nodes(base, scope, x)),
        ensures
            depends(all, x.node, base + 17),
            depends(all, x.node, base + 11),
            depends(all, base + 11, base + 17),
            depends(all, base + 16, base + 17),
            depends(all, base + 12, base + 16),
    {
        self.dataflow(base, scope, x);
        let n = self.nodes(base, scope, x);
        let h = TensorView { node: base, dtype: x.dtype, shape: x.shape };
        let h2 = TensorView { node: base + 13, dtype: x.dtype, shape: x.shape };
        lemma_run_input(all, base, n, 0, 0);
        lemma_run_input(all, base, n, 12, 1);
        lemma_run_input(all, base, n, 13, 0);
        lemma_run_input(all, base, n, 17, 0);
        lemma_run_input(all, base, n, 17, 1);
        lemma_part_of_run(all, base, n, 1, self.self_attn.nodes(base + 1, scope, h, h, h));
        self.self_attn.output_depends_on_inputs(all, base + 1, scope, h, h, h);
        lemma_part_of_run(all, base, n, 14, self.ffn.nodes(base + 14, scope, h2));
        self.ffn.output_depends_on_input(all, base + 14, scope, h2);
        lemma_depends_trans(all, x.node, base + 0, base + 11);
        lemma_depends_trans(all, base + 11, base + 12, base + 17);
        lemma_depends_trans(all, x.node, base + 11, base + 17);
        lemma_depends_trans(all, base + 12, base + 13, base + 16);
    }

    /// Forward: `x [S, D] → out [S, D]`.
    pub fn forward(&self, graph: &mut Graph, x: SymTensor) -> (t: SymTensor)
        requires
            self.fits(),
            x@.shape.len() >= 1,
        ensures
            final(graph)@ == old(graph)@.extended(
                self.nodes(old(graph)@.nodes.len(), old(graph)@.scope, x@),
            ),
            t@ == self.output(old(graph)@.nodes.len(), old(graph)@.scope, x@),
    {
        broadcast use {lemma_extended, MultiHeadAttention::nodes_len, FeedForward::nodes_len};

        reveal(EncoderBlock::nodes);

        // Pre-norm self-attention
        let norm1 = sym_rmsnorm(graph, x.clone(), self.d_model, self.eps);
        let attn_out = self.self_attn.self_attn(graph, norm1);
        let x2 = sym_add(graph, &x, &attn_out);

        // Pre-norm FFN
        let norm2 = sym_rmsnorm(graph, x2.clone(), self.d_model, self.eps);
        let ffn_out = self.ffn.forward(graph, norm2);
        let out = sym_add(graph, &x2, &ffn_out);
        assert(graph@ =~= old(graph)@.extended(
            self.nodes(old(graph)@.nodes.len(), old(graph)@.scope, x@),
        ));
        out
    }
}

} // verus!
