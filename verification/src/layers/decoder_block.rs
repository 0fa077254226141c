//! Transformer decoder block (pre-norm).
//!
//! Three sub-layers:
//! 1. **Causal self-attention** — masked so each position can only attend to past tokens.
//! 2. **Cross-attention** — queries from the decoder, keys/values from the encoder output.
//! 3. **SwiGLU FFN**
//!
//! ```text
//!   tgt ─ RMSNorm ─ CausalSelfAttn ─ Add ─ RMSNorm ─ CrossAttn(enc) ─ Add ─ RMSNorm ─ FFN ─ Add ─ out
//!     └───────────────────────────────┘ └──────────────────────────────┘ └───────────────────┘
//! ```

use vstd::prelude::*;

use crate::graph::{
    depends, handle, holds_run, lemma_depends_trans, lemma_extended, lemma_ordered,
    lemma_part_of_run, lemma_run_input, ordered, scope_name, Graph, NodeView, OpView, SymTensor,
    TensorView,
};
use crate::ieee::{F32Bits, F64Bits};
use crate::layers::{
    add_node, rmsnorm_node, sym_add, sym_rmsnorm, AttentionKind, FeedForward, MultiHeadAttention,
};

verus! {

/// One decoder block.
#[derive(Clone, Copy, Debug, PartialEq, Eq, Structural)]
pub struct DecoderBlock {
    pub self_attn: MultiHeadAttention,
    pub cross_attn: MultiHeadAttention,
    pub ffn: FeedForward,
    pub d_model: usize,
    pub eps: F64Bits,
}

impl DecoderBlock {
    /// The block with causal self-attention and bidirectional cross-attention.
    pub open spec fn of(
        d_model: usize,
        n_heads: usize,
        d_ff: usize,
        rope_base: F32Bits,
        eps: F64Bits,
    ) -> Self {
        DecoderBlock {
            self_attn: MultiHeadAttention::of(d_model, n_heads, rope_base, AttentionKind::Causal),
            cross_attn: MultiHeadAttention::of(
                d_model,
                n_heads,
                rope_base,
                AttentionKind::Bidirectional,
            ),
            ffn: FeedForward { d_model, d_ff },
            d_model,
            eps,
        }
    }

    /// Derived widths fit a word.
    pub open spec fn fits(self) -> bool {
        self.self_attn.fits() && self.cross_attn.fits() && self.ffn.fits()
    }

    pub fn new(d_model: usize, n_heads: usize, d_ff: usize, rope_base: F32Bits, eps: F64Bits) -> (r:
        Self)
        requires
            n_heads > 0,
            d_model % n_heads == 0,
        ensures
            r == Self::of(d_model, n_heads, d_ff, rope_base, eps),
            r.d_model == d_model && r.eps == eps,
            r.self_attn.d_model == d_model && r.self_attn.n_heads == n_heads,
            r.self_attn.rope_base == rope_base && r.self_attn.kind == AttentionKind::Causal,
            r.cross_attn.d_model == d_model && r.cross_attn.n_heads == n_heads,
            r.cross_attn.rope_base == rope_base,
            r.cross_attn.kind == AttentionKind::Bidirectional,
            r.ffn.d_model == d_model && r.ffn.d_ff == d_ff,
            r.self_attn.wf(),
            r.cross_attn.wf(),
    {
        DecoderBlock {
            self_attn: MultiHeadAttention::new(d_model, n_heads, rope_base, AttentionKind::Causal),
            cross_attn: MultiHeadAttention::new(
                d_model,
                n_heads,
                rope_base,
                AttentionKind::Bidirectional,
            ),
            ffn: FeedForward::new(d_model, d_ff),
            d_model,
            eps,
        }
    }

    /// The nodes that the block records, the first of them at `base`.
    #[verifier::opaque]
    pub open spec fn nodes(
        self,
        base: nat,
        scope: Seq<Seq<char>>,
        tgt: TensorView,
        enc: TensorView,
    ) -> Seq<NodeView> {
        let norm1 = rmsnorm_node(scope, tgt, self.d_model, self.eps);
        let h1 = handle(base, norm1);
        let self_out = self.self_attn.output(base + 1, scope, h1, h1, h1);
        let add1 = add_node(scope, tgt, self_out);
        let x2 = handle(base + 12, add1);
        let norm2 = rmsnorm_node(scope, x2, self.d_model, self.eps);
        let h2 = handle(base + 13, norm2);
        let cross_out = self.cross_attn.output(base + 14, scope, h2, enc, enc);
        let add2 = add_node(scope, x2, cross_out);
        let x3 = handle(base + 25, add2);
        let norm3 = rmsnorm_node(scope, x3, self.d_model, self.eps);
        let h3 = handle(base + 26, norm3);
        let ffn_out = self.ffn.output(base + 27, scope, h3);
        let add3 = add_node(scope, x3, ffn_out);
        seq![norm1] + self.self_attn.nodes(base + 1, scope, h1, h1, h1) + seq![add1] + seq![norm2]
            + self.cross_attn.nodes(base + 14, scope, h2, enc, enc) + seq![add2] + seq![norm3]
            + self.ffn.nodes(base + 27, scope, h3) + seq![add3]
    }

    /// The handle on the last of [`Self::nodes`].
    pub open spec fn output(
        self,
        base: nat,
        scope: Seq<Seq<char>>,
        tgt: TensorView,
        enc: TensorView,
    ) -> TensorView {
        handle(base + 30, self.nodes(base, scope, tgt, enc).last())
    }

    /// The block records thirty-one nodes.
    pub broadcast proof fn nodes_len(
        self,
        base: nat,
        scope: Seq<Seq<char>>,
        tgt: TensorView,
        enc: TensorView,
    )
        ensures
            #[trigger] self.nodes(base, scope, tgt, enc).len() == 31,
    {
        broadcast use {MultiHeadAttention::nodes_len, FeedForward::nodes_len};

        reveal(DecoderBlock::nodes);
    }

    /// The block keeps shape and element type of its target input.
    pub broadcast proof fn output_shape(
        self,
        base: nat,
        scope: Seq<Seq<char>>,
        tgt: TensorView,
        enc: TensorView,
    )
        ensures
            #![trigger self.output(base, scope, tgt, enc)]
            self.output(base, scope, tgt, enc).shape == tgt.shape,
            self.output(base, scope, tgt, enc).dtype == tgt.dtype,
    {
        reveal(DecoderBlock::nodes);
    }

    /// Every node of the block reads its inputs or nodes of the block before it.
    pub proof fn nodes_in_order(
        self,
        base: nat,
        scope: Seq<Seq<char>>,
        tgt: TensorView,
        enc: TensorView,
    )
        requires
            tgt.node < base,
            enc.node < base,
        ensures
            ordered(self.nodes(base, scope, tgt, enc), base),
    {
        broadcast use {lemma_ordered, MultiHeadAttention::nodes_len, FeedForward::nodes_len};

        reveal(DecoderBlock::nodes);
        let norm1 = rmsnorm_node(scope, tgt, self.d_model, self.eps);
        let h1 = handle(base, norm1);
        self.self_attn.nodes_in_order(base + 1, scope, h1, h1, h1);
        let add1 = add_node(scope, tgt, self.self_attn.output(base + 1, scope, h1, h1, h1));
        let x2 = handle(base + 12, add1);
        let norm2 = rmsnorm_node(scope, x2, self.d_model, self.eps);
        let h2 = handle(base + 13, norm2);
        self.cross_attn.nodes_in_order(base + 14, scope, h2, enc, enc);
        let add2 = add_node(scope, x2, self.cross_attn.output(base + 14, scope, h2, enc, enc));
        let x3 = handle(base + 25, add2);
        let norm3 = rmsnorm_node(scope, x3, self.d_model, self.eps);
        let h3 = handle(base + 26, norm3);
        self.ffn.nodes_in_order(base + 27, scope, h3);
        let add3 = add_node(scope, x3, self.ffn.output(base + 27, scope, h3));
        assert(ordered(seq![norm1], base));
        assert(ordered(seq![add1], base + 12));
        assert(ordered(seq![norm2], base + 13));
        assert(ordered(seq![add2], base + 25));
        assert(ordered(seq![norm3], base + 26));
        assert(ordered(seq![add3], base + 30));
    }

    /// The dataflow of the block, with its three residual connections: self-attention
    /// reads the normalised target; cross-attention takes its queries from the normalised
    /// sum and its keys and values from the encoder output; the feed-forward network reads
    /// the normalised second sum.
    pub proof fn dataflow(
        self,
        base: nat,
        scope: Seq<Seq<char>>,
        tgt: TensorView,
        enc: TensorView,
    )
        ensures
            ({
                let n = self.nodes(base, scope, tgt, enc);
                let norm = OpView::RmsNorm {
                    normalized_shape: seq![self.d_model],
                    eps: self.eps,
                    affine: true,
                };
                let h = TensorView { node: base, dtype: tgt.dtype, shape: tgt.shape };
                let h2 = TensorView { node: base + 13, dtype: tgt.dtype, shape: tgt.shape };
                let h3 = TensorView { node: base + 26, dtype: tgt.dtype, shape: tgt.shape };
                &&& n.len() == 31
                &&& n[0].op == norm && n[0].inputs == seq![tgt.node]
                &&& n.subrange(1, 12) == self.self_attn.nodes(base + 1, scope, h, h, h)
                &&& n[12].op == OpView::Add && n[12].inputs == seq![tgt.node, base + 11]
                &&& n[13].op == norm && n[13].inputs == seq![base + 12]
                &&& n.subrange(14, 25) == self.cross_attn.nodes(base + 14, scope, h2, enc, enc)
                &&& n[25].op == OpView::Add && n[25].inputs == seq![base + 12, base + 24]
                &&& n[26].op == norm && n[26].inputs == seq![base + 25]
                &&& n.subrange(27, 30) == self.ffn.nodes(base + 27, scope, h3)
                &&& n[30].op == OpView::Add && n[30].inputs == seq![base + 25, base + 29]
                &&& n[0].name == scope_name(scope) && n[12].name == scope_name(scope)
                &&& n[13].name == scope_name(scope) && n[25].name == scope_name(scope)
                &&& n[26].name == scope_name(scope) && n[30].name == scope_name(scope)
                &&& n[0].shape == tgt.shape && n[0].dtype == tgt.dtype
                &&& n[12].shape == tgt.shape && n[12].dtype == tgt.dtype
                &&& n[13].shape == tgt.shape && n[13].dtype == tgt.dtype
                &&& n[25].shape == tgt.shape && n[25].dtype == tgt.dtype
                &&& n[26].shape == tgt.shape && n[26].dtype == tgt.dtype
                &&& n[30].shape == tgt.shape && n[30].dtype == tgt.dtype
                &&& self.output(base, scope, tgt, enc).node == base + 30
            }),
    {
        broadcast use {MultiHeadAttention::nodes_len, FeedForward::nodes_len};

        reveal(DecoderBlock::nodes);
        let n = self.nodes(base, scope, tgt, enc);
        let h = TensorView { node: base, dtype: tgt.dtype, shape: tgt.shape };
        let h2 = TensorView { node: base + 13, dtype: tgt.dtype, shape: tgt.shape };
        let h3 = TensorView { node: base + 26, dtype: tgt.dtype, shape: tgt.shape };
        assert(n.subrange(1, 12) =~= self.self_attn.nodes(base + 1, scope, h, h, h));
        assert(n.subrange(14, 25) =~= self.cross_attn.nodes(base + 14, scope, h2, enc, enc));
        assert(n.subrange(27, 30) =~= self.ffn.nodes(base + 27, scope, h3));
    }

    /// Exactly two nodes of the block read the encoder output: the key and the value
    /// projection of the cross-attention. The target is read by the first norm and the
    /// first residual connection.
    pub proof fn who_reads_the_inputs(
        self,
        base: nat,
        scope: Seq<Seq<char>>,
        tgt: TensorView,
        enc: TensorView,
        i: int,
    )
        requires
            2 * self.ffn.d_ff <= usize::MAX,
            tgt.node < base,
            enc.node < base,
            tgt.node != enc.node,
            0 <= i < 31,
        ensures
            self.nodes(base, scope, tgt, enc)[i].inputs.contains(enc.node) <==> i == 15 || i == 16,
            self.nodes(base, scope, tgt, enc)[i].inputs.contains(tgt.node) <==> i == 0 || i == 12,
            self.nodes(base, scope, tgt, enc)[15].name == scope_name(scope.push("k_proj"@)),
            self.nodes(base, scope, tgt, enc)[16].name == scope_name(scope.push("v_proj"@)),
    {
        self.dataflow(base, scope, tgt, enc);
        let n = self.nodes(base, scope, tgt, enc);
        let h = TensorView { node: base, dtype: tgt.dtype, shape: tgt.shape };
        let h2 = TensorView { node: base + 13, dtype: tgt.dtype, shape: tgt.shape };
        let h3 = TensorView { node: base + 26, dtype: tgt.dtype, shape: tgt.shape };
        self.self_attn.dataflow(base + 1, scope, h, h, h);
        self.cross_attn.dataflow(base + 14, scope, h2, enc, enc);
        self.ffn.dataflow(base + 27, scope, h3);
        assert(n[15] == n.subrange(14, 25)[1] && n[16] == n.subrange(14, 25)[2]);
        assert(n[15].inputs[0] == enc.node && n[16].inputs[0] == enc.node);
        assert(n[0].inputs[0] == tgt.node && n[12].inputs[0] == tgt.node);
        if 1 <= i < 12 {
            assert(n[i] == n.subrange(1, 12)[i - 1]);
            assert forall|k: int| 0 <= k < n[i].inputs.len() implies #[trigger] n[i].inputs[k] >= base by {}
        } else if 14 <= i < 25 && i != 15 && i != 16 {
            assert(n[i] == n.subrange(14, 25)[i - 14]);
            assert forall|k: int| 0 <= k < n[i].inputs.len() implies #[trigger] n[i].inputs[k] >= base by {}
        } else if 27 <= i < 30 {
            assert(n[i] == n.subrange(27, 30)[i - 27]);
            assert forall|k: int| 0 <= k < n[i].inputs.len() implies #[trigger] n[i].inputs[k] >= base by {}
        }
    }

    /// In a graph that holds the block's nodes, its output depends on the target and on
    /// the encoder output.
    pub proof fn output_depends_on_inputs(
        self,
        all: Seq<NodeView>,
        base: nat,
        scope: Seq<Seq<char>>,
        tgt: TensorView,
        enc: TensorView,
    )
        requires
            2 * self.ffn.d_ff <= usize::MAX,
            holds_run(all, base, self.nodes(base, scope, tgt, enc)),
        ensures
            depends(all, tgt.node, base + 30),
            depends(all, enc.node, base + 30),
            depends(all, base + 11, base + 30),
            depends(all, base + 24, base + 30),
            depends(all, base + 29, base + 30),
    {
        self.dataflow(base, scope, tgt, enc);
        let n = self.nodes(base, scope, tgt, enc);
        let h = TensorView { node: base, dtype: tgt.dtype, shape: tgt.shape };
        let h2 = TensorView { node: base + 13, dtype: tgt.dtype, shape: tgt.shape };
        lemma_run_input(all, base, n, 0, 0);
        lemma_run_input(all, base, n, 12, 0);
        lemma_run_input(all, base, n, 12, 1);
        lemma_run_input(all, base, n, 25, 0);
        lemma_run_input(all, base, n, 25, 1);
        lemma_run_input(all, base, n, 30, 0);
        lemma_run_input(all, base, n, 30, 1);
        let cross = self.cross_attn.nodes(base + 14, scope, h2, enc, enc);
        self.cross_attn.dataflow(base + 14, scope, h2, enc, enc);
        lemma_part_of_run(all, base, n, 14, cross);
        self.cross_attn.output_depends_on_inputs(all, base + 14, scope, h2, enc, enc);
        lemma_depends_trans(all, base + 24, base + 25, base + 30);
        lemma_depends_trans(all, enc.node, base + 24, base + 30);
        lemma_depends_trans(all, base + 12, base + 25, base + 30);
        lemma_depends_trans(all, base + 11, base + 12, base + 30);
        lemma_depends_trans(all, tgt.node, base + 12, base + 30);
    }

    /// Forward: `tgt [S_t, D]`, `enc [S_e, D]` → `out [S_t, D]`.
    pub fn forward(&self, graph: &mut Graph, tgt: SymTensor, enc: SymTensor) -> (t: SymTensor)
        requires
            self.fits(),
            tgt@.shape.len() >= 1,
            enc@.shape.len() >= 1,
        ensures
            final(graph)@ == old(graph)@.extended(
                self.nodes(old(graph)@.nodes.len(), old(graph)@.scope, tgt@, enc@),
            ),
            t@ == self.output(old(graph)@.nodes.len(), old(graph)@.scope, tgt@, enc@),
    {
        broadcast use {lemma_extended, MultiHeadAttention::nodes_len, FeedForward::nodes_len};

        reveal(DecoderBlock::nodes);
        // Causal self-attention
        let norm1 = sym_rmsnorm(graph, tgt.clone(), self.d_model, self.eps);
        let self_out = self.self_attn.self_attn(graph, norm1);
        let x2 = sym_add(graph, &tgt, &self_out);

        // Cross-attention (queries from decoder, keys/values from encoder)
        let norm2 = sym_rmsnorm(graph, x2.clone(), self.d_model, self.eps);
        let cross_out = self.cross_attn.cross_attn(graph, norm2, enc);
        let x3 = sym_add(graph, &x2, &cross_out);

        // FFN
        let norm3 = sym_rmsnorm(graph, x3.clone(), self.d_model, self.eps);
        let ffn_out = self.ffn.forward(graph, norm3);
        let out = sym_add(graph, &x3, &ffn_out);
        assert(graph@ =~= old(graph)@.extended(
            self.nodes(old(graph)@.nodes.len(), old(graph)@.scope, tgt@, enc@),
        ));
        out
    }
}

} // verus!
