//! Llama-style decoder-only language model.
//!
//! Architecture (Llama 2 / Llama 3 naming):
//! ```text
//! ids [S]
//!   → TokenEmbedding          [S, D]
//!   → LlamaBlock × n_layers   [S, D]
//!   → final RMSNorm           [S, D]
//!   → lm_head (linear, no bias, weight-tied to embedding)  [S, vocab_size]
//!   → logits
//! ```
//!
//! Weight tying: the output projection (`lm_head`) has the name and the extent of the
//! token embedding table, so both are loaded from one tensor.

use vstd::prelude::*;

use crate::config::LlamaConfig;
use crate::graph::{
    depends, handle, holds_run, lemma_depends_trans, lemma_extended, lemma_extended_in_order,
    lemma_ordered, lemma_part_of_run, lemma_run_input, ordered, scope_name, CustomOp, DtypeRepr,
    Graph, GraphView, NodeView, OpView, SymTensor, TensorView,
};
use crate::ieee::F64Bits;
use crate::layers::attention::AttentionKind;
use crate::layers::embedding::{lookups_read_the_ids, TokenEmbedOp};
use crate::layers::{linear_node, rmsnorm_node, sym_rmsnorm, LlamaBlock, TokenEmbedding};

verus! {

/// Llama-style decoder-only transformer.
#[derive(Debug)]
pub struct Llama {
    pub embedding: TokenEmbedding,
    pub layers: Vec<LlamaBlock>,
    pub d_model: usize,
    pub eps: F64Bits,
}

/// The nodes of `blocks` applied one after the other, the first node at `base`.
pub open spec fn stacked_nodes(
    blocks: Seq<LlamaBlock>,
    base: nat,
    scope: Seq<Seq<char>>,
    x: TensorView,
) -> Seq<NodeView>
    decreases blocks.len(),
{
    if blocks.len() == 0 {
        Seq::empty()
    } else {
        let below = blocks.drop_last();
        stacked_nodes(below, base, scope, x) + blocks.last().nodes(
            base + 18 * below.len(),
            scope,
            stacked_output(below, base, scope, x),
        )
    }
}

/// What `blocks` applied one after the other return.
pub open spec fn stacked_output(
    blocks: Seq<LlamaBlock>,
    base: nat,
    scope: Seq<Seq<char>>,
    x: TensorView,
) -> TensorView
    decreases blocks.len(),
{
    if blocks.len() == 0 {
        x
    } else {
        let below = blocks.drop_last();
        blocks.last().output(
            base + 18 * below.len(),
            scope,
            stacked_output(below, base, scope, x),
        )
    }
}

/// Each block records 18 nodes.
pub broadcast proof fn lemma_stacked_len(
    blocks: Seq<LlamaBlock>,
    base: nat,
    scope: Seq<Seq<char>>,
    x: TensorView,
)
    ensures
        #[trigger] stacked_nodes(blocks, base, scope, x).len() == 18 * blocks.len(),
    decreases blocks.len(),
{
    if blocks.len() > 0 {
        broadcast use LlamaBlock::nodes_len;

        lemma_stacked_len(blocks.drop_last(), base, scope, x);
    }
}

/// Stacked blocks keep shape and element type.
pub broadcast proof fn lemma_stacked_shape(
    blocks: Seq<LlamaBlock>,
    base: nat,
    scope: Seq<Seq<char>>,
    x: TensorView,
)
    ensures
        #![trigger stacked_output(blocks, base, scope, x)]
        stacked_output(blocks, base, scope, x).shape == x.shape,
        stacked_output(blocks, base, scope, x).dtype == x.dtype,
    decreases blocks.len(),
{
    if blocks.len() > 0 {
        broadcast use LlamaBlock::output_shape;

        lemma_stacked_shape(blocks.drop_last(), base, scope, x);
    }
}

/// The stack returns its input, or the last node that it recorded.
proof fn lemma_stacked_output_node(
    blocks: Seq<LlamaBlock>,
    base: nat,
    scope: Seq<Seq<char>>,
    x: TensorView,
)
    requires
        x.node < base,
    ensures
        stacked_output(blocks, base, scope, x).node < base + 18 * blocks.len(),
{
}

/// Every node of the stack reads its input or nodes of the stack before it.
proof fn lemma_stacked_in_order(
    blocks: Seq<LlamaBlock>,
    base: nat,
    scope: Seq<Seq<char>>,
    x: TensorView,
)
    requires
        x.node < base,
    ensures
        ordered(stacked_nodes(blocks, base, scope, x), base),
    decreases blocks.len(),
{
    if blocks.len() > 0 {
        let below = blocks.drop_last();
        lemma_stacked_len(below, base, scope, x);
        lemma_stacked_in_order(below, base, scope, x);
        lemma_stacked_output_node(below, base, scope, x);
        let mid = stacked_output(below, base, scope, x);
        blocks.last().nodes_in_order(base + 18 * below.len(), scope, mid);
        lemma_ordered(
            stacked_nodes(below, base, scope, x),
            blocks.last().nodes(base + 18 * below.len(), scope, mid),
            base,
        );
    }
}

/// The stack returns its input, or the last node of its last block.
proof fn lemma_stacked_last(
    blocks: Seq<LlamaBlock>,
    base: nat,
    scope: Seq<Seq<char>>,
    x: TensorView,
)
    ensures
        stacked_output(blocks, base, scope, x).node == (if blocks.len() == 0 {
            x.node
        } else {
            (base + 18 * blocks.len() - 1) as nat
        }),
{
}

/// What block `i` of a stack on `x` reads: the input of the stack, or the last node of
/// the block before it, of the same shape and element type.
spec fn block_input(base: nat, x: TensorView, i: int) -> TensorView {
    TensorView {
        node: if i == 0 {
            x.node
        } else {
            (base + 18 * i - 1) as nat
        },
        dtype: x.dtype,
        shape: x.shape,
    }
}

/// Each block of a stack takes up where the one before it ends.
proof fn lemma_stacked_run(
    blocks: Seq<LlamaBlock>,
    base: nat,
    scope: Seq<Seq<char>>,
    x: TensorView,
    i: int,
)
    requires
        0 <= i < blocks.len(),
    ensures
        stacked_nodes(blocks, base, scope, x).len() == 18 * blocks.len(),
        stacked_nodes(blocks, base, scope, x).subrange(18 * i, 18 * i + 18)
            == blocks[i].nodes(
            (base + 18 * i) as nat,
            scope,
            block_input(base, x, i),
        ),
    decreases blocks.len(),
{
    broadcast use {lemma_stacked_len, lemma_stacked_shape, LlamaBlock::nodes_len};

    let below = blocks.drop_last();
    let all = stacked_nodes(blocks, base, scope, x);
    let part = blocks[i].nodes((base + 18 * i) as nat, scope, block_input(base, x, i));
    if i == blocks.len() - 1 {
        lemma_stacked_last(below, base, scope, x);
        assert(stacked_output(below, base, scope, x) == block_input(base, x, i));
        assert(all.subrange(18 * i, 18 * i + 18) =~= part);
    } else {
        lemma_stacked_run(below, base, scope, x, i);
        let first = stacked_nodes(below, base, scope, x);
        assert(all.subrange(18 * i, 18 * i + 18) =~= first.subrange(18 * i, 18 * i + 18));
    }
}

/// In a graph that holds a stack's nodes, what the stack returns depends on its input.
proof fn lemma_stacked_depends(
    blocks: Seq<LlamaBlock>,
    all: Seq<NodeView>,
    base: nat,
    scope: Seq<Seq<char>>,
    x: TensorView,
    i: int,
)
    requires
        0 <= i < blocks.len(),
        forall|k: int| 0 <= k < blocks.len() ==> 2 * (#[trigger] blocks[k]).ffn.d_ff <= usize::MAX,
        holds_run(all, base, stacked_nodes(blocks, base, scope, x)),
    ensures
        depends(all, x.node, (base + 18 * i + 17) as nat),
    decreases i,
{
    broadcast use LlamaBlock::nodes_len;

    let nodes = stacked_nodes(blocks, base, scope, x);
    let at = (base + 18 * i) as nat;
    let input = block_input(base, x, i);
    lemma_stacked_run(blocks, base, scope, x, i);
    lemma_part_of_run(all, base, nodes, (18 * i) as nat, blocks[i].nodes(at, scope, input));
    blocks[i].output_depends_on_input(all, at, scope, input);
    if i > 0 {
        lemma_stacked_depends(blocks, all, base, scope, x, i - 1);
        lemma_depends_trans(all, x.node, input.node, (base + 18 * i + 17) as nat);
    }
}

impl Llama {
    /// The model holds the embedding of `cfg`, one block per layer, all alike, and its
    /// final norm.
    pub open spec fn is_built_from(self, cfg: LlamaConfig) -> bool {
        &&& self.embedding == (TokenEmbedding { vocab_size: cfg.vocab_size, d_model: cfg.d_model })
        &&& self.layers@ == Seq::new(
            cfg.n_layers as nat,
            |i: int|
                LlamaBlock::of(
                    cfg.d_model,
                    cfg.n_heads,
                    cfg.width() as usize,
                    cfg.rope_base,
                    cfg.eps,
                ),
        )
        &&& self.d_model == cfg.d_model
        &&& self.eps == cfg.eps
    }

    /// Derived widths fit a word.
    pub open spec fn fits(self) -> bool {
        forall|i: int| 0 <= i < self.layers@.len() ==> (#[trigger] self.layers@[i]).fits()
    }

    pub fn new(cfg: &LlamaConfig) -> (r: Self)
        requires
            cfg.width_fits(),
            cfg.n_layers > 0 ==> cfg.n_heads > 0 && cfg.d_model % cfg.n_heads == 0,
        ensures
            r.is_built_from(*cfg),
            2 * cfg.width() <= usize::MAX ==> r.fits(),
    {
        let d_ff: usize = cfg.d_ff();
        let mut layers: Vec<LlamaBlock> = Vec::new();
        let mut i: usize = 0;
        while i < cfg.n_layers
            invariant
                i <= cfg.n_layers,
                cfg.n_layers > 0 ==> cfg.n_heads > 0 && cfg.d_model % cfg.n_heads == 0,
                d_ff == cfg.width(),
                layers@.len() == i,
                forall|k: int|
                    0 <= k < i ==> #[trigger] layers@[k] == LlamaBlock::of(
                        cfg.d_model,
                        cfg.n_heads,
                        d_ff,
                        cfg.rope_base,
                        cfg.eps,
                    ),
                forall|k: int|
                    0 <= k < i && 2 * cfg.width() <= usize::MAX ==> (
                    #[trigger] layers@[k]).fits(),
            decreases cfg.n_layers - i,
        {
            let block = LlamaBlock::new(cfg.d_model, cfg.n_heads, d_ff, cfg.rope_base, cfg.eps);
            layers.push(block);
            i += 1;
        }
        let embedding = TokenEmbedding::new(cfg.vocab_size, cfg.d_model);
        let r = Llama { embedding, layers, d_model: cfg.d_model, eps: cfg.eps };
        assert(r.layers@ =~= Seq::new(
            cfg.n_layers as nat,
            |i: int|
                LlamaBlock::of(
                    cfg.d_model,
                    cfg.n_heads,
                    cfg.width() as usize,
                    cfg.rope_base,
                    cfg.eps,
                ),
        ));
        r
    }

    /// The nodes that the model records, the first of them at `base`.
    #[verifier::opaque]
    pub open spec fn nodes(self, base: nat, scope: Seq<Seq<char>>, ids: TensorView) -> Seq<
        NodeView,
    > {
        let lookup = self.embedding.lookup_node(scope, ids);
        let x = handle(base, lookup);
        let mid = stacked_output(self.layers@, base + 1, scope, x);
        let norm = rmsnorm_node(scope, mid, self.d_model, self.eps);
        let normed = handle(base + 1 + 18 * self.layers@.len(), norm);
        let head = linear_node(
            scope,
            normed,
            self.embedding.d_model,
            self.embedding.vocab_size,
        );
        seq![lookup] + stacked_nodes(self.layers@, base + 1, scope, x) + seq![norm] + seq![head]
    }

    /// The handle on the last of [`Self::nodes`], the logits.
    pub open spec fn output(self, base: nat, scope: Seq<Seq<char>>, ids: TensorView) -> TensorView {
        handle(base + 2 + 18 * self.layers@.len(), self.nodes(base, scope, ids).last())
    }

    /// The model records 18 nodes per block and three more.
    pub proof fn nodes_len(self, base: nat, scope: Seq<Seq<char>>, ids: TensorView)
        ensures
            self.nodes(base, scope, ids).len() == 18 * self.layers@.len() + 3,
    {
        broadcast use lemma_stacked_len;

        reveal(Llama::nodes);
    }

    /// The logits have one row per token and one column per vocabulary entry, in
    /// single precision.
    pub proof fn logits_shape(self, base: nat, scope: Seq<Seq<char>>, ids: TensorView)
        requires
            ids.shape.len() >= 1,
        ensures
            self.output(base, scope, ids).shape == seq![
                ids.shape[0],
                Some(self.embedding.vocab_size),
            ],
            self.output(base, scope, ids).dtype == DtypeRepr::F32,
    {
        broadcast use lemma_stacked_shape;

        reveal(Llama::nodes);
        assert(self.output(base, scope, ids).shape =~= seq![
            ids.shape[0],
            Some(self.embedding.vocab_size),
        ]);
    }

    /// The first node looks tokens up in a `[vocab_size, d_model]` table, and the last
    /// one projects through a table of the same extent. Both nodes have one name, so a
    /// checkpoint has one key for both tables.
    pub proof fn tables_are_tied(self, base: nat, scope: Seq<Seq<char>>, ids: TensorView)
        ensures
            self.nodes(base, scope, ids).first() == self.embedding.lookup_node(scope, ids),
            self.nodes(base, scope, ids).last().op == (OpView::Linear {
                in_features: self.embedding.d_model,
                out_features: self.embedding.vocab_size,
                has_bias: false,
            }),
            self.nodes(base, scope, ids).last().name == self.nodes(base, scope, ids).first().name,
    {
        reveal(Llama::nodes);
    }

    /// Every node of the model reads the token ids or nodes of the model before it.
    pub proof fn nodes_in_order(self, base: nat, scope: Seq<Seq<char>>, ids: TensorView)
        requires
            ids.node < base,
        ensures
            ordered(self.nodes(base, scope, ids), base),
    {
        broadcast use {lemma_ordered, lemma_stacked_len};

        reveal(Llama::nodes);
        let n = self.layers@.len();
        let lookup = self.embedding.lookup_node(scope, ids);
        let x = handle(base, lookup);
        lemma_stacked_in_order(self.layers@, base + 1, scope, x);
        lemma_stacked_output_node(self.layers@, base + 1, scope, x);
        let mid = stacked_output(self.layers@, base + 1, scope, x);
        let norm = rmsnorm_node(scope, mid, self.d_model, self.eps);
        let normed = handle(base + 1 + 18 * n, norm);
        let head = linear_node(
            scope,
            normed,
            self.embedding.d_model,
            self.embedding.vocab_size,
        );
        assert(ordered(seq![lookup], base));
        assert(ordered(seq![norm], base + 1 + 18 * n));
        assert(ordered(seq![head], base + 2 + 18 * n));
    }

    /// Recording the model keeps a graph in order, and the logits are its last node.
    pub proof fn forward_keeps_order(self, g: GraphView, ids: TensorView)
        requires
            g.wf(),
            g.has(ids),
        ensures
            ({
                let base = g.nodes.len();
                let after = g.extended(self.nodes(base, g.scope, ids));
                let logits = self.output(base, g.scope, ids);
                &&& after.wf()
                &&& after.has(logits)
                &&& logits.node == after.nodes.len() - 1
            }),
    {
        let base = g.nodes.len();
        self.nodes_len(base, g.scope, ids);
        self.nodes_in_order(base, g.scope, ids);
        lemma_extended_in_order(g, self.nodes(base, g.scope, ids));
    }

    /// The dataflow of the model: the first node looks the ids up; block `i` reads the last
    /// node of block `i - 1`, the first one the lookup; the final norm, over `d_model` with
    /// the model's stability constant, reads the last block, or the lookup where there are
    /// no blocks; the head reads the final norm and nothing else.
    pub proof fn dataflow(self, base: nat, scope: Seq<Seq<char>>, ids: TensorView)
        requires
            ids.shape.len() >= 1,
        ensures
            ({
                let n = self.nodes(base, scope, ids);
                let count = self.layers@.len() as int;
                let d = self.embedding.d_model;
                &&& n.len() == 18 * count + 3
                &&& n[0].op == OpView::Custom(
                    CustomOp::TokenEmbed(
                        TokenEmbedOp { vocab_size: self.embedding.vocab_size, d_model: d },
                    ),
                )
                &&& n[0].inputs == seq![ids.node]
                &&& forall|i: int|
                    0 <= i < count ==> n.subrange(1 + 18 * i, 19 + 18 * i) == (
                    #[trigger] self.layers@[i]).nodes(
                        (base + 1 + 18 * i) as nat,
                        scope,
                        TensorView {
                            node: (base + 18 * i) as nat,
                            dtype: DtypeRepr::F32,
                            shape: seq![ids.shape[0], Some(d)],
                        },
                    )
                &&& n[18 * count + 1].op == (OpView::RmsNorm {
                    normalized_shape: seq![self.d_model],
                    eps: self.eps,
                    affine: true,
                })
                &&& n[18 * count + 1].inputs == seq![(base + 18 * count) as nat]
                &&& n[18 * count + 2].op == (OpView::Linear {
                    in_features: d,
                    out_features: self.embedding.vocab_size,
                    has_bias: false,
                })
                &&& n[18 * count + 2].inputs == seq![(base + 18 * count + 1) as nat]
                &&& n[0].shape == seq![ids.shape[0], Some(d)] && n[0].dtype == DtypeRepr::F32
                &&& n[18 * count + 1].shape == n[0].shape
                &&& n[18 * count + 1].dtype == DtypeRepr::F32
                &&& n[18 * count + 2].shape == seq![
                    ids.shape[0],
                    Some(self.embedding.vocab_size),
                ]
                &&& n[18 * count + 2].dtype == DtypeRepr::F32
                &&& n[0].name == scope_name(scope)
                &&& n[18 * count + 1].name == scope_name(scope)
                &&& n[18 * count + 2].name == scope_name(scope)
                &&& self.output(base, scope, ids).node == base + 18 * count + 2
            }),
    {
        broadcast use {lemma_stacked_len, lemma_stacked_shape};

        reveal(Llama::nodes);
        let n = self.nodes(base, scope, ids);
        lookups_read_the_ids(self.embedding, scope, ids);
        let x = handle(base, self.embedding.lookup_node(scope, ids));
        let run = stacked_nodes(self.layers@, base + 1, scope, x);
        lemma_stacked_last(self.layers@, base + 1, scope, x);
        assert(n[18 * self.layers@.len() as int + 2].shape =~= seq![
            ids.shape[0],
            Some(self.embedding.vocab_size),
        ]);
        assert forall|i: int| 0 <= i < self.layers@.len() implies n.subrange(
            1 + 18 * i,
            19 + 18 * i,
        ) == (#[trigger] self.layers@[i]).nodes(
            (base + 1 + 18 * i) as nat,
            scope,
            TensorView {
                node: (base + 18 * i) as nat,
                dtype: DtypeRepr::F32,
                shape: seq![ids.shape[0], Some(self.embedding.d_model)],
            },
        ) by {
            lemma_stacked_run(self.layers@, base + 1, scope, x, i);
            assert(n.subrange(1 + 18 * i, 19 + 18 * i) =~= run.subrange(18 * i, 18 * i + 18));
        }
    }

    /// In a graph that holds the model's nodes, the logits depend on the token ids.
    pub proof fn logits_depend_on_ids(
        self,
        all: Seq<NodeView>,
        base: nat,
        scope: Seq<Seq<char>>,
        ids: TensorView,
    )
        requires
            ids.shape.len() >= 1,
            forall|k: int|
                0 <= k < self.layers@.len() ==> 2 * (#[trigger] self.layers@[k]).ffn.d_ff
                    <= usize::MAX,
            holds_run(all, base, self.nodes(base, scope, ids)),
        ensures
            depends(all, ids.node, base + 18 * self.layers@.len() + 2),
    {
        broadcast use lemma_stacked_len;

        let count = self.layers@.len();
        let n = self.nodes(base, scope, ids);
        self.dataflow(base, scope, ids);
        lemma_run_input(all, base, n, 0, 0);
        lemma_run_input(all, base, n, 18 * count + 1, 0);
        lemma_run_input(all, base, n, 18 * count + 2, 0);
        if count > 0 {
            reveal(Llama::nodes);
            let x = handle(base, self.embedding.lookup_node(scope, ids));
            let run = stacked_nodes(self.layers@, base + 1, scope, x);
            assert(n.subrange(1, 1 + 18 * count as int) =~= run);
            lemma_part_of_run(all, base, n, 1, run);
            lemma_stacked_depends(self.layers@, all, base + 1, scope, x, count - 1);
            lemma_depends_trans(all, ids.node, base + 0, base + 18 * count);
        }
        lemma_depends_trans(all, ids.node, base + 18 * count, base + 18 * count + 1);
        lemma_depends_trans(all, ids.node, base + 18 * count + 1, base + 18 * count + 2);
    }

    /// What a configuration asks for: its vocabulary and width, as many blocks as it says,
    /// all causal, each of its width, heads and base frequency, with the feed-forward width
    /// that it gives or the least one that is a multiple of 64 and at least 8/3 of the hidden
    /// one, and its stability constant throughout.
    pub proof fn built_as_configured(self, cfg: LlamaConfig)
        requires
            self.is_built_from(cfg),
            cfg.n_heads > 0,
            cfg.d_model % cfg.n_heads == 0,
            cfg.intermediate_size is None ==> 8 * cfg.d_model <= usize::MAX,
        ensures
            self.embedding.vocab_size == cfg.vocab_size,
            self.embedding.d_model == cfg.d_model,
            self.d_model == cfg.d_model,
            self.eps == cfg.eps,
            self.layers@.len() == cfg.n_layers,
            forall|i: int|
                0 <= i < self.layers@.len() ==> ({
                    let b = #[trigger] self.layers@[i];
                    &&& b.d_model == cfg.d_model
                    &&& b.eps == cfg.eps
                    &&& b.self_attn.d_model == cfg.d_model
                    &&& b.self_attn.n_heads == cfg.n_heads
                    &&& cfg.n_heads * b.self_attn.head_dim == cfg.d_model
                    &&& b.self_attn.rope_base == cfg.rope_base
                    &&& b.self_attn.kind == AttentionKind::Causal
                    &&& b.ffn.d_model == cfg.d_model
                    &&& match cfg.intermediate_size {
                        Some(size) => b.ffn.d_ff == size,
                        None => b.ffn.d_ff % 64 == 0 && 3 * b.ffn.d_ff - 192 < 8 * cfg.d_model <= 3
                            * b.ffn.d_ff,
                    }
                }),
    {
        vstd::arithmetic::div_mod::lemma_fundamental_div_mod(
            cfg.d_model as int,
            cfg.n_heads as int,
        );
    }

    /// Forward pass.
    ///
    /// - `ids [S]` — input token IDs (f32-encoded)
    ///
    /// Returns `logits [S, vocab_size]`.
    pub fn forward(&self, graph: &mut Graph, ids: SymTensor) -> (t: SymTensor)
        requires
            self.fits(),
            ids@.shape.len() >= 1,
        ensures
            final(graph)@ == old(graph)@.extended(
                self.nodes(old(graph)@.nodes.len(), old(graph)@.scope, ids@),
            ),
            t@ == self.output(old(graph)@.nodes.len(), old(graph)@.scope, ids@),
    {
        broadcast use {lemma_extended, lemma_stacked_len, lemma_stacked_shape};

        reveal(Llama::nodes);
        let ghost base = old(graph)@.nodes.len();
        let ghost scope = old(graph)@.scope;
        let mut x = self.embedding.forward(graph, ids);
        let ghost looked_up = graph@;
        let ghost input = x@;
        assert(graph@ =~= looked_up.extended(Seq::empty()));
        let mut i: usize = 0;
        while i < self.layers.len()
            invariant
                i <= self.layers@.len(),
                self.fits(),
                input.shape.len() >= 1,
                looked_up.nodes.len() == base + 1,
                looked_up.scope == scope,
                graph@ == looked_up.extended(
                    stacked_nodes(self.layers@.take(i as int), base + 1, scope, input),
                ),
                x@ == stacked_output(self.layers@.take(i as int), base + 1, scope, input),
            decreases self.layers@.len() - i,
        {
            broadcast use {lemma_extended, lemma_stacked_len, lemma_stacked_shape};

            assert(self.layers@.take(i + 1).drop_last() =~= self.layers@.take(i as int));
            assert(self.layers@[i as int].fits());
            x = self.layers[i].forward(graph, x);
            i += 1;
        }
        assert(self.layers@.take(i as int) =~= self.layers@);
        let x = sym_rmsnorm(graph, x, self.d_model, self.eps);
        self.embedding.output_proj(graph, x)
    }
}

} // verus!
