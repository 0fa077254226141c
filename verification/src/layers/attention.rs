//! Multi-head attention layer.
//!
//! Projects Q/K/V, transposes to `[BH, S, D_head]`, applies RoPE, then
//! Flash Attention 2 (causal or non-causal), merges heads, and projects out.
//!
//! Layout flow:
//! ```text
//! [S, D] --(Wq)--> [S, D] --TransposeHeads--> [H, S, D_head] --RoPE--> [H, S, D_head]
//!                                                                          ↓  FlashAttn2
//! [S, D] <--(Wo)-- [S, D] <--MergeHeads-- [H, S, D_head]
//! ```

use vstd::prelude::*;

use crate::graph::{
    custom_node, depends, handle, holds_run, lemma_depends_trans, lemma_run_input,
    lemma_scope_closed, ordered, scope_name, CustomOp, Graph, NodeView, OpView, SymTensor, TensorView,
};
use crate::ieee::{inv_sqrt, softmax_scale_bits, F32Bits};
use crate::kernels::flash_attn2::{
    causal_flash_attn2_op, flash_attn2_op, CausalFlashAttn2Op, FlashAttn2Op,
};
use crate::kernels::rope::{rope_op, RopeOp};
use crate::kernels::transpose_heads::{MergeHeadsOp, TransposeHeadsOp};
use crate::layers::{linear_node, sym_linear};

verus! {

/// Whether the attention is bidirectional (encoder) or causal (decoder self-attn).
#[derive(Clone, Copy, Debug, PartialEq, Eq, Structural)]
pub enum AttentionKind {
    /// Bidirectional — used in encoder self-attention and cross-attention.
    Bidirectional,
    /// Causal — decoder self-attention with upper-triangular mask.
    Causal,
}

/// Multi-head attention layer (forward graph recording).
///
/// Records the following ops:
/// 1. Linear projections W_q, W_k, W_v (no bias)
/// 2. `TransposeHeads` — `[S, D]` → `[H, S, D_head]`
/// 3. `RoPE` — applied to Q and K
/// 4. Flash Attention 2 (causal or bidirectional)
/// 5. `MergeHeads` — `[H, S, D_head]` → `[S, D]`
/// 6. Output projection W_o (no bias)
#[derive(Clone, Copy, Debug, PartialEq, Eq, Structural)]
pub struct MultiHeadAttention {
    pub d_model: usize,
    pub n_heads: usize,
    pub head_dim: usize,
    pub rope_base: F32Bits,
    pub kind: AttentionKind,
}

impl MultiHeadAttention {
    /// The layer over `n_heads` heads of `d_model / n_heads` dimensions each.
    pub open spec fn of(
        d_model: usize,
        n_heads: usize,
        rope_base: F32Bits,
        kind: AttentionKind,
    ) -> Self {
        MultiHeadAttention {
            d_model,
            n_heads,
            head_dim: (d_model as int / n_heads as int) as usize,
            rope_base,
            kind,
        }
    }

    /// The heads make up the hidden dimension.
    pub open spec fn wf(self) -> bool {
        self.n_heads * self.head_dim == self.d_model
    }

    /// The merged heads fit a word, as they do where they make up the hidden
    /// dimension.
    pub open spec fn fits(self) -> bool {
        self.n_heads * self.head_dim <= usize::MAX
    }

    pub fn new(d_model: usize, n_heads: usize, rope_base: F32Bits, kind: AttentionKind) -> (r: Self)
        requires
            n_heads > 0,
            d_model % n_heads == 0,
        ensures
            r == Self::of(d_model, n_heads, rope_base, kind),
            r.wf(),
            r.d_model == d_model && r.n_heads == n_heads && n_heads * r.head_dim == d_model,
            r.rope_base == rope_base && r.kind == kind,
    {
        proof {
            vstd::arithmetic::div_mod::lemma_fundamental_div_mod(d_model as int, n_heads as int);
        }
        MultiHeadAttention { d_model, n_heads, head_dim: d_model / n_heads, rope_base, kind }
    }

    /// The attention op: of the layer's kind, with scale `1 / √head_dim`.
    pub open spec fn attention_op(self) -> CustomOp {
        let scale = softmax_scale_bits(self.head_dim as nat) as u32;
        match self.kind {
            AttentionKind::Bidirectional => CustomOp::FlashAttn2(
                flash_attn2_op(self.head_dim, scale),
            ),
            AttentionKind::Causal => CustomOp::CausalFlashAttn2(
                causal_flash_attn2_op(self.head_dim, scale),
            ),
        }
    }

    /// The eleven nodes that the layer records, the first of them at `base`.
    #[verifier::opaque]
    pub open spec fn nodes(
        self,
        base: nat,
        scope: Seq<Seq<char>>,
        q_in: TensorView,
        k_in: TensorView,
        v_in: TensorView,
    ) -> Seq<NodeView> {
        let d = self.d_model;
        let split = CustomOp::TransposeHeads(
            TransposeHeadsOp { n_heads: self.n_heads, head_dim: self.head_dim },
        );
        let merge = CustomOp::MergeHeads(
            MergeHeadsOp { n_heads: self.n_heads, head_dim: self.head_dim },
        );
        let rotate = CustomOp::Rope(rope_op(self.head_dim, self.rope_base));
        let none = Seq::empty();

        let q_proj = linear_node(scope.push("q_proj"@), q_in, d, d);
        let k_proj = linear_node(scope.push("k_proj"@), k_in, d, d);
        let v_proj = linear_node(scope.push("v_proj"@), v_in, d, d);
        let q_heads = custom_node(scope, split, handle(base, q_proj), none, None);
        let k_heads = custom_node(scope, split, handle(base + 1, k_proj), none, None);
        let v_heads = custom_node(scope, split, handle(base + 2, v_proj), none, None);
        let q_rot = custom_node(scope, rotate, handle(base + 3, q_heads), none, None);
        let k_rot = custom_node(scope, rotate, handle(base + 4, k_heads), none, None);
        let attended = custom_node(
            scope,
            self.attention_op(),
            handle(base + 6, q_rot),
            seq![base + 7, base + 5],
            None,
        );
        let merged = custom_node(scope, merge, handle(base + 8, attended), none, None);
        let o_proj = linear_node(scope.push("o_proj"@), handle(base + 9, merged), d, d);
        seq![
            q_proj,
            k_proj,
            v_proj,
            q_heads,
            k_heads,
            v_heads,
            q_rot,
            k_rot,
            attended,
            merged,
            o_proj,
        ]
    }

    /// The handle on the last of [`Self::nodes`].
    pub open spec fn output(
        self,
        base: nat,
        scope: Seq<Seq<char>>,
        q_in: TensorView,
        k_in: TensorView,
        v_in: TensorView,
    ) -> TensorView {
        handle(base + 10, self.nodes(base, scope, q_in, k_in, v_in).last())
    }

    /// The layer records eleven nodes.
    pub broadcast proof fn nodes_len(
        self,
        base: nat,
        scope: Seq<Seq<char>>,
        q_in: TensorView,
        k_in: TensorView,
        v_in: TensorView,
    )
        ensures
            #[trigger] self.nodes(base, scope, q_in, k_in, v_in).len() == 11,
    {
        reveal(MultiHeadAttention::nodes);
    }

    /// The layer keeps the leading dimension of the queries and gives each position
    /// `d_model` values of their element type.
    pub proof fn output_shape(
        self,
        base: nat,
        scope: Seq<Seq<char>>,
        q_in: TensorView,
        k_in: TensorView,
        v_in: TensorView,
    )
        requires
            q_in.shape.len() >= 2,
        ensures
            self.output(base, scope, q_in, k_in, v_in).shape == seq![
                q_in.shape[0],
                Some(self.d_model),
            ],
            self.output(base, scope, q_in, k_in, v_in).dtype == q_in.dtype,
    {
        reveal(MultiHeadAttention::nodes);
        assert(self.output(base, scope, q_in, k_in, v_in).shape =~= seq![
            q_in.shape[0],
            Some(self.d_model),
        ]);
    }

    /// Every node of the layer reads its inputs or nodes of the layer before it.
    pub proof fn nodes_in_order(
        self,
        base: nat,
        scope: Seq<Seq<char>>,
        q_in: TensorView,
        k_in: TensorView,
        v_in: TensorView,
    )
        requires
            q_in.node < base,
            k_in.node < base,
            v_in.node < base,
        ensures
            ordered(self.nodes(base, scope, q_in, k_in, v_in), base),
    {
        reveal(MultiHeadAttention::nodes);
    }

    /// The dataflow of the layer. Queries, keys and values are projected from their own
    /// inputs and split into heads; queries and keys are rotated, values are not. Attention
    /// reads rotated queries, rotated keys and values, in this order, and is of the layer's
    /// kind. The merge reads attention alone, and the output projection the merge.
    pub proof fn dataflow(
        self,
        base: nat,
        scope: Seq<Seq<char>>,
        q_in: TensorView,
        k_in: TensorView,
        v_in: TensorView,
    )
        ensures
            ({
                let n = self.nodes(base, scope, q_in, k_in, v_in);
                let d = self.d_model;
                let projection = OpView::Linear {
                    in_features: d,
                    out_features: d,
                    has_bias: false,
                };
                let split = OpView::Custom(
                    CustomOp::TransposeHeads(
                        TransposeHeadsOp { n_heads: self.n_heads, head_dim: self.head_dim },
                    ),
                );
                &&& n.len() == 11
                // Projections
                &&& n[0].op == projection && n[1].op == projection && n[2].op == projection
                &&& n[0].inputs == seq![q_in.node]
                &&& n[1].inputs == seq![k_in.node]
                &&& n[2].inputs == seq![v_in.node]
                &&& n[0].name == scope_name(scope.push("q_proj"@))
                &&& n[1].name == scope_name(scope.push("k_proj"@))
                &&& n[2].name == scope_name(scope.push("v_proj"@))
                // Heads
                &&& n[3].op == split && n[4].op == split && n[5].op == split
                &&& n[3].inputs == seq![base]
                &&& n[4].inputs == seq![base + 1]
                &&& n[5].inputs == seq![base + 2]
                // Rotation of queries and keys
                &&& n[6].inputs == seq![base + 3]
                &&& n[7].inputs == seq![base + 4]
                &&& n[6].op == n[7].op
                &&& n[6].op matches OpView::Custom(CustomOp::Rope(r)) && r.rope_base
                    == self.rope_base && (r.head_dim - self.head_dim) % 0x1_0000_0000 == 0
                // Attention
                &&& n[8].inputs == seq![base + 6, base + 7, base + 5]
                &&& (match self.kind {
                    AttentionKind::Bidirectional => n[8].op matches OpView::Custom(
                        CustomOp::FlashAttn2(a),
                    ) && a.softmax_scale == softmax_scale_bits(self.head_dim as nat) as u32
                        && (a.head_dim - self.head_dim) % 0x1_0000_0000 == 0,
                    AttentionKind::Causal => n[8].op matches OpView::Custom(
                        CustomOp::CausalFlashAttn2(a),
                    ) && a.softmax_scale == softmax_scale_bits(self.head_dim as nat) as u32
                        && (a.head_dim - self.head_dim) % 0x1_0000_0000 == 0,
                })
                // Merge and output projection
                &&& n[9].op == OpView::Custom(
                    CustomOp::MergeHeads(
                        MergeHeadsOp { n_heads: self.n_heads, head_dim: self.head_dim },
                    ),
                )
                &&& n[9].inputs == seq![base + 8]
                &&& n[10].op == projection
                &&& n[10].inputs == seq![base + 9]
                &&& n[10].name == scope_name(scope.push("o_proj"@))
                &&& forall|i: int| 3 <= i < 10 ==> (#[trigger] n[i]).name == scope_name(scope)
                &&& self.output(base, scope, q_in, k_in, v_in).node == base + 10
            }),
    {
        reveal(MultiHeadAttention::nodes);
        let n = self.nodes(base, scope, q_in, k_in, v_in);
        assert(n[3].inputs =~= seq![base]);
        assert(n[4].inputs =~= seq![base + 1]);
        assert(n[5].inputs =~= seq![base + 2]);
        assert(n[6].inputs =~= seq![base + 3]);
        assert(n[7].inputs =~= seq![base + 4]);
        assert(n[8].inputs =~= seq![base + 6, base + 7, base + 5]);
        assert(n[9].inputs =~= seq![base + 8]);
    }

    /// Shapes along the layer: heads are `[n_heads, S, head_dim]`, merged rows
    /// `[S, n_heads · head_dim]`. Everything on the way from queries, keys or values has
    /// their element type.
    pub proof fn inner_shapes(
        self,
        base: nat,
        scope: Seq<Seq<char>>,
        q_in: TensorView,
        k_in: TensorView,
        v_in: TensorView,
    )
        requires
            q_in.shape.len() >= 2,
            k_in.shape.len() >= 2,
            v_in.shape.len() >= 2,
            self.n_heads * self.head_dim <= usize::MAX,
        ensures
            ({
                let n = self.nodes(base, scope, q_in, k_in, v_in);
                let (h, w) = (Some(self.n_heads), Some(self.head_dim));
                &&& n[3].shape == seq![h, q_in.shape[0], w]
                &&& n[4].shape == seq![h, k_in.shape[0], w]
                &&& n[5].shape == seq![h, v_in.shape[0], w]
                &&& n[6].shape == seq![h, q_in.shape[0], w]
                &&& n[7].shape == seq![h, k_in.shape[0], w]
                &&& n[8].shape == seq![h, q_in.shape[0], w]
                &&& n[9].shape.len() == 2 && n[9].shape[0] == q_in.shape[0]
                &&& n[9].shape[1] is Some && n[9].shape[1]->Some_0 == self.n_heads * self.head_dim
                &&& n[0].dtype == q_in.dtype && n[3].dtype == q_in.dtype
                &&& n[6].dtype == q_in.dtype && n[8].dtype == q_in.dtype
                &&& n[9].dtype == q_in.dtype && n[10].dtype == q_in.dtype
                &&& n[1].dtype == k_in.dtype && n[4].dtype == k_in.dtype
                &&& n[7].dtype == k_in.dtype
                &&& n[2].dtype == v_in.dtype && n[5].dtype == v_in.dtype
            }),
    {
        reveal(MultiHeadAttention::nodes);
        let n = self.nodes(base, scope, q_in, k_in, v_in);
        let (h, w) = (Some(self.n_heads), Some(self.head_dim));
        assert(n[3].shape =~= seq![h, q_in.shape[0], w]);
        assert(n[4].shape =~= seq![h, k_in.shape[0], w]);
        assert(n[5].shape =~= seq![h, v_in.shape[0], w]);
    }

    /// Nothing that the layer records is in vain: every node but the last is read by a
    /// later one.
    pub proof fn every_node_is_read(
        self,
        base: nat,
        scope: Seq<Seq<char>>,
        q_in: TensorView,
        k_in: TensorView,
        v_in: TensorView,
        i: int,
    )
        requires
            0 <= i < 10,
        ensures
            exists|j: int|
                i < j < 11 && (#[trigger] self.nodes(
                    base,
                    scope,
                    q_in,
                    k_in,
                    v_in,
                )[j]).inputs.contains((base + i) as nat),
    {
        self.dataflow(base, scope, q_in, k_in, v_in);
        let n = self.nodes(base, scope, q_in, k_in, v_in);
        let j = if i < 5 {
            i + 3
        } else if i < 8 {
            8
        } else {
            i + 1
        };
        let at = if i == 7 {
            1
        } else if i == 5 {
            2
        } else {
            0int
        };
        assert(n[j].inputs[at] == base + i);
        assert(n[j].inputs.contains((base + i) as nat));
    }

    /// Queries, keys and values all matter: in a graph that holds the layer's nodes, its
    /// output depends on each of its inputs.
    pub proof fn output_depends_on_inputs(
        self,
        all: Seq<NodeView>,
        base: nat,
        scope: Seq<Seq<char>>,
        q_in: TensorView,
        k_in: TensorView,
        v_in: TensorView,
    )
        requires
            holds_run(all, base, self.nodes(base, scope, q_in, k_in, v_in)),
        ensures
            depends(all, q_in.node, base + 10),
            depends(all, k_in.node, base + 10),
            depends(all, v_in.node, base + 10),
    {
        self.dataflow(base, scope, q_in, k_in, v_in);
        let n = self.nodes(base, scope, q_in, k_in, v_in);
        lemma_run_input(all, base, n, 0, 0);
        lemma_run_input(all, base, n, 1, 0);
        lemma_run_input(all, base, n, 2, 0);
        lemma_run_input(all, base, n, 3, 0);
        lemma_run_input(all, base, n, 4, 0);
        lemma_run_input(all, base, n, 5, 0);
        lemma_run_input(all, base, n, 6, 0);
        lemma_run_input(all, base, n, 7, 0);
        lemma_run_input(all, base, n, 8, 0);
        lemma_run_input(all, base, n, 8, 1);
        lemma_run_input(all, base, n, 8, 2);
        lemma_run_input(all, base, n, 9, 0);
        lemma_run_input(all, base, n, 10, 0);
        lemma_depends_trans(all, base + 8, base + 9, base + 10);
        lemma_depends_trans(all, q_in.node, base, base + 3);
        lemma_depends_trans(all, q_in.node, base + 3, base + 6);
        lemma_depends_trans(all, q_in.node, base + 6, base + 8);
        lemma_depends_trans(all, q_in.node, base + 8, base + 10);
        lemma_depends_trans(all, k_in.node, base + 1, base + 4);
        lemma_depends_trans(all, k_in.node, base + 4, base + 7);
        lemma_depends_trans(all, k_in.node, base + 7, base + 8);
        lemma_depends_trans(all, k_in.node, base + 8, base + 10);
        lemma_depends_trans(all, v_in.node, base + 2, base + 5);
        lemma_depends_trans(all, v_in.node, base + 5, base + 8);
        lemma_depends_trans(all, v_in.node, base + 8, base + 10);
    }

    /// Records self-attention: `q = x`, `k = x`, `v = x`.
    pub fn self_attn(&self, graph: &mut Graph, x: SymTensor) -> (t: SymTensor)
        requires
            self.fits(),
            x@.shape.len() >= 1,
        ensures
            final(graph)@ == old(graph)@.extended(
                self.nodes(old(graph)@.nodes.len(), old(graph)@.scope, x@, x@, x@),
            ),
            t@ == self.output(old(graph)@.nodes.len(), old(graph)@.scope, x@, x@, x@),
    {
        let q_in = x.clone();
        let k_in = x.clone();
        self.forward(graph, q_in, k_in, x)
    }

    /// Records cross-attention: queries from `x`, keys/values from `context`.
    pub fn cross_attn(&self, graph: &mut Graph, x: SymTensor, context: SymTensor) -> (t: SymTensor)
        requires
            self.fits(),
            x@.shape.len() >= 1,
            context@.shape.len() >= 1,
        ensures
            final(graph)@ == old(graph)@.extended(
                self.nodes(old(graph)@.nodes.len(), old(graph)@.scope, x@, context@, context@),
            ),
            t@ == self.output(old(graph)@.nodes.len(), old(graph)@.scope, x@, context@, context@),
    {
        let k_in = context.clone();
        self.forward(graph, x, k_in, context)
    }

    /// Core forward: projects `q_in/k_in/v_in`, applies RoPE + attention.
    pub fn forward(
        &self,
        graph: &mut Graph,
        q_in: SymTensor,
        k_in: SymTensor,
        v_in: SymTensor,
    ) -> (t: SymTensor)
        requires
            self.fits(),
            q_in@.shape.len() >= 1,
            k_in@.shape.len() >= 1,
            v_in@.shape.len() >= 1,
        ensures
            final(graph)@ == old(graph)@.extended(
                self.nodes(old(graph)@.nodes.len(), old(graph)@.scope, q_in@, k_in@, v_in@),
            ),
            t@ == self.output(old(graph)@.nodes.len(), old(graph)@.scope, q_in@, k_in@, v_in@),
    {
        broadcast use lemma_scope_closed;

        let ghost base = old(graph)@.nodes.len();
        let ghost scope = old(graph)@.scope;
        let ghost table = self.nodes(base, scope, q_in@, k_in@, v_in@);
        proof {
            reveal(MultiHeadAttention::nodes);
        }
        let scale: F32Bits = inv_sqrt(self.head_dim);

        // Linear projections: [S, D] → [S, D]
        graph.push_scope("q_proj");
        let q = sym_linear(graph, q_in, self.d_model, self.d_model);
        graph.pop_scope();
        graph.push_scope("k_proj");
        let k = sym_linear(graph, k_in, self.d_model, self.d_model);
        graph.pop_scope();
        graph.push_scope("v_proj");
        let v = sym_linear(graph, v_in, self.d_model, self.d_model);
        graph.pop_scope();
        assert(graph@ =~= old(graph)@.extended(table.take(3)));

        // Transpose heads: [S, D] → [H, S, D_head]
        let split = TransposeHeadsOp::custom_data(self.n_heads, self.head_dim);
        let q = q.record_custom(graph, split, &[], None);
        let k = k.record_custom(graph, split, &[], None);
        let v = v.record_custom(graph, split, &[], None);
        assert(graph@ =~= old(graph)@.extended(table.take(6)));

        // RoPE on Q and K
        let rotate = RopeOp::custom_data(self.head_dim, self.rope_base);
        let q = q.record_custom(graph, rotate, &[], None);
        let k = k.record_custom(graph, rotate, &[], None);
        assert(graph@ =~= old(graph)@.extended(table.take(8)));

        // Flash Attention 2
        let attend = match self.kind {
            AttentionKind::Bidirectional => FlashAttn2Op::custom_data(self.head_dim, scale),
            AttentionKind::Causal => CausalFlashAttn2Op::custom_data(self.head_dim, scale),
        };
        let others: [&SymTensor; 2] = [&k, &v];
        assert(others@.map_values(|t: &SymTensor| t@.node) =~= seq![base + 7, base + 5]);
        let o = q.record_custom(graph, attend, &others, None);

        // Merge heads: [H, S, D_head] → [S, D]
        let merge = MergeHeadsOp::custom_data(self.n_heads, self.head_dim);
        let o = o.record_custom(graph, merge, &[], None);
        assert(graph@ =~= old(graph)@.extended(table.take(10)));

        // Output projection
        graph.push_scope("o_proj");
        let out = sym_linear(graph, o, self.d_model, self.d_model);
        graph.pop_scope();
        assert(graph@ =~= old(graph)@.extended(table));
        out
    }
}

} // verus!
