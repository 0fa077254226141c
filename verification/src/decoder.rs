//! Transformer decoder stack.
//!
//! N identical `DecoderBlock`s followed by a final `RMSNorm`.

use vstd::prelude::*;

use crate::config::{swiglu_width, TransformerConfig};
use crate::graph::{
    depends, handle, holds_run, lemma_depends_trans, lemma_extended, lemma_ordered,
    lemma_part_of_run, lemma_run_input, ordered, scope_name, Graph, NodeView, OpView, SymTensor,
    TensorView,
};
use crate::ieee::{f32_to_f64, f32_widened, F64Bits};
use crate::layers::attention::AttentionKind;
use crate::layers::{rmsnorm_node, sym_rmsnorm, DecoderBlock};

verus! {

/// Stacked decoder blocks + final norm.
#[derive(Debug)]
pub struct Decoder {
    pub blocks: Vec<DecoderBlock>,
    pub d_model: usize,
    pub eps: F64Bits,
}

/// The nodes of `blocks` applied one after the other, the first node at `base`.
pub open spec fn stacked_nodes(
    blocks: Seq<DecoderBlock>,
    base: nat,
    scope: Seq<Seq<char>>,
    tgt: TensorView,
    enc: TensorView,
) -> Seq<NodeView>
    decreases blocks.len(),
{
    if blocks.len() == 0 {
        Seq::empty()
    } else {
        let below = blocks.drop_last();
        stacked_nodes(below, base, scope, tgt, enc) + blocks.last().nodes(
            base + 31 * below.len(),
            scope,
            stacked_output(below, base, scope, tgt, enc),
            enc,
        )
    }
}

/// What `blocks` applied one after the other return.
pub open spec fn stacked_output(
    blocks: Seq<DecoderBlock>,
    base: nat,
    scope: Seq<Seq<char>>,
    tgt: TensorView,
    enc: TensorView,
) -> TensorView
    decreases blocks.len(),
{
    if blocks.len() == 0 {
        tgt
    } else {
        let below = blocks.drop_last();
        blocks.last().output(
            base + 31 * below.len(),
            scope,
            stacked_output(below, base, scope, tgt, enc),
            enc,
        )
    }
}

/// Each block records 31 nodes.
pub broadcast proof fn lemma_stacked_len(
    blocks: Seq<DecoderBlock>,
    base: nat,
    scope: Seq<Seq<char>>,
    tgt: TensorView,
    enc: TensorView,
)
    ensures
        #[trigger] stacked_nodes(blocks, base, scope, tgt, enc).len() == 31 * blocks.len(),
    decreases blocks.len(),
{
    if blocks.len() > 0 {
        broadcast use DecoderBlock::nodes_len;

        lemma_stacked_len(blocks.drop_last(), base, scope, tgt, enc);
    }
}

/// Stacked blocks keep shape and element type.
pub broadcast proof fn lemma_stacked_shape(
    blocks: Seq<DecoderBlock>,
    base: nat,
    scope: Seq<Seq<char>>,
    tgt: TensorView,
    enc: TensorView,
)
    ensures
        #![trigger stacked_output(blocks, base, scope, tgt, enc)]
        stacked_output(blocks, base, scope, tgt, enc).shape == tgt.shape,
        stacked_output(blocks, base, scope, tgt, enc).dtype == tgt.dtype,
    decreases blocks.len(),
{
    if blocks.len() > 0 {
        broadcast use DecoderBlock::output_shape;

        lemma_stacked_shape(blocks.drop_last(), base, scope, tgt, enc);
    }
}

/// The stack returns its input, or the last node that it recorded.
proof fn lemma_stacked_output_node(
    blocks: Seq<DecoderBlock>,
    base: nat,
    scope: Seq<Seq<char>>,
    tgt: TensorView,
    enc: TensorView,
)
    requires
        tgt.node < base,
    ensures
        stacked_output(blocks, base, scope, tgt, enc).node < base + 31 * blocks.len(),
{
}

/// Every node of the stack reads its inputs or nodes of the stack before it.
proof fn lemma_stacked_in_order(
    blocks: Seq<DecoderBlock>,
    base: nat,
    scope: Seq<Seq<char>>,
    tgt: TensorView,
    enc: TensorView,
)
    requires
        tgt.node < base,
        enc.node < base,
    ensures
        ordered(stacked_nodes(blocks, base, scope, tgt, enc), base),
    decreases blocks.len(),
{
    if blocks.len() > 0 {
        let below = blocks.drop_last();
        lemma_stacked_len(below, base, scope, tgt, enc);
        lemma_stacked_in_order(below, base, scope, tgt, enc);
        lemma_stacked_output_node(below, base, scope, tgt, enc);
        let mid = stacked_output(below, base, scope, tgt, enc);
        blocks.last().nodes_in_order(base + 31 * below.len(), scope, mid, enc);
        lemma_ordered(
            stacked_nodes(below, base, scope, tgt, enc),
            blocks.last().nodes(base + 31 * below.len(), scope, mid, enc),
            base,
        );
    }
}

/// The stack returns its input, or the last node of its last block.
proof fn lemma_stacked_last(
    blocks: Seq<DecoderBlock>,
    base: nat,
    scope: Seq<Seq<char>>,
    tgt: TensorView,
    enc: TensorView,
)
    ensures
        stacked_output(blocks, base, scope, tgt, enc).node == (if blocks.len() == 0 {
            tgt.node
        } else {
            (base + 31 * blocks.len() - 1) as nat
        }),
{
}

/// What block `i` of a stack on `tgt` reads: the input of the stack, or the last node of
/// the block before it, of the same shape and element type.
spec fn block_input(base: nat, tgt: TensorView, i: int) -> TensorView {
    TensorView {
        node: if i == 0 {
            tgt.node
        } else {
            (base + 31 * i - 1) as nat
        },
        dtype: tgt.dtype,
        shape: tgt.shape,
    }
}

/// Each block of a stack takes up where the one before it ends.
proof fn lemma_stacked_run(
    blocks: Seq<DecoderBlock>,
    base: nat,
    scope: Seq<Seq<char>>,
    tgt: TensorView,
    enc: TensorView,
    i: int,
)
    requires
        0 <= i < blocks.len(),
    ensures
        stacked_nodes(blocks, base, scope, tgt, enc).len() == 31 * blocks.len(),
        stacked_nodes(blocks, base, scope, tgt, enc).subrange(31 * i, 31 * i + 31)
            == blocks[i].nodes(
            (base + 31 * i) as nat,
            scope,
            block_input(base, tgt, i),
            enc,
        ),
    decreases blocks.len(),
{
    broadcast use {lemma_stacked_len, lemma_stacked_shape, DecoderBlock::nodes_len};

    let below = blocks.drop_last();
    let all = stacked_nodes(blocks, base, scope, tgt, enc);
    let part = blocks[i].nodes((base + 31 * i) as nat, scope, block_input(base, tgt, i), enc);
    if i == blocks.len() - 1 {
        lemma_stacked_last(below, base, scope, tgt, enc);
        assert(stacked_output(below, base, scope, tgt, enc) == block_input(base, tgt, i));
        let first = stacked_nodes(below, base, scope, tgt, enc);
        assert(all == first + part);
        assert(first.len() == 31 * i);
        assert(all.subrange(31 * i, 31 * i + 31) =~= part);
    } else {
        lemma_stacked_run(below, base, scope, tgt, enc, i);
        let first = stacked_nodes(below, base, scope, tgt, enc);
        assert(all.subrange(31 * i, 31 * i + 31) =~= first.subrange(31 * i, 31 * i + 31));
    }
}

/// In a graph that holds a stack's nodes, what the stack returns depends on its inputs.
proof fn lemma_stacked_depends(
    blocks: Seq<DecoderBlock>,
    all: Seq<NodeView>,
    base: nat,
    scope: Seq<Seq<char>>,
    tgt: TensorView,
    enc: TensorView,
    i: int,
)
    requires
        0 <= i < blocks.len(),
        forall|k: int| 0 <= k < blocks.len() ==> 2 * (#[trigger] blocks[k]).ffn.d_ff <= usize::MAX,
        holds_run(all, base, stacked_nodes(blocks, base, scope, tgt, enc)),
    ensures
        depends(all, tgt.node, (base + 31 * i + 30) as nat),
        depends(all, enc.node, (base + 31 * i + 30) as nat),
    decreases i,
{
    broadcast use DecoderBlock::nodes_len;

    let nodes = stacked_nodes(blocks, base, scope, tgt, enc);
    let at = (base + 31 * i) as nat;
    let input = block_input(base, tgt, i);
    lemma_stacked_run(blocks, base, scope, tgt, enc, i);
    lemma_part_of_run(all, base, nodes, (31 * i) as nat, blocks[i].nodes(at, scope, input, enc));
    blocks[i].output_depends_on_inputs(all, at, scope, input, enc);
    if i > 0 {
        lemma_stacked_depends(blocks, all, base, scope, tgt, enc, i - 1);
        lemma_depends_trans(all, tgt.node, input.node, (base + 31 * i + 30) as nat);
    }
}

impl Decoder {
    /// The stack holds one block per layer of `cfg`, all alike, and its final norm.
    pub open spec fn is_built_from(self, cfg: TransformerConfig) -> bool {
        &&& self.blocks@ == Seq::new(
            cfg.n_decoder_layers as nat,
            |i: int|
                DecoderBlock::of(
                    cfg.d_model,
                    cfg.n_heads,
                    swiglu_width(cfg.d_model as nat) as usize,
                    cfg.rope_base,
                    f32_widened(cfg.eps) as u64,
                ),
        )
        &&& self.d_model == cfg.d_model
        &&& self.eps == f32_widened(cfg.eps)
    }

    /// Derived widths fit a word.
    pub open spec fn fits(self) -> bool {
        forall|i: int| 0 <= i < self.blocks@.len() ==> (#[trigger] self.blocks@[i]).fits()
    }

    pub fn new(cfg: &TransformerConfig) -> (r: Self)
        requires
            cfg.n_decoder_layers > 0 ==> cfg.valid(),
        ensures
            r.is_built_from(*cfg),
            r.fits(),
    {
        let eps: F64Bits = f32_to_f64(cfg.eps);
        let mut blocks: Vec<DecoderBlock> = Vec::new();
        let mut i: usize = 0;
        while i < cfg.n_decoder_layers
            invariant
                i <= cfg.n_decoder_layers,
                cfg.n_decoder_layers > 0 ==> cfg.valid(),
                eps == f32_widened(cfg.eps),
                blocks@.len() == i,
                forall|k: int|
                    0 <= k < i ==> #[trigger] blocks@[k] == DecoderBlock::of(
                        cfg.d_model,
                        cfg.n_heads,
                        swiglu_width(cfg.d_model as nat) as usize,
                        cfg.rope_base,
                        eps,
                    ),
                forall|k: int| 0 <= k < i ==> (#[trigger] blocks@[k]).fits(),
            decreases cfg.n_decoder_layers - i,
        {
            let block = DecoderBlock::new(cfg.d_model, cfg.n_heads, cfg.d_ff(), cfg.rope_base, eps);
            assert(block.fits());
            blocks.push(block);
            i += 1;
        }
        let r = Decoder { blocks, d_model: cfg.d_model, eps };
        assert(r.blocks@ =~= Seq::new(
            cfg.n_decoder_layers as nat,
            |i: int|
                DecoderBlock::of(
                    cfg.d_model,
                    cfg.n_heads,
                    swiglu_width(cfg.d_model as nat) as usize,
                    cfg.rope_base,
                    f32_widened(cfg.eps) as u64,
                ),
        ));
        r
    }

    /// The nodes that the stack records, the first of them at `base`.
    #[verifier::opaque]
    pub open spec fn nodes(
        self,
        base: nat,
        scope: Seq<Seq<char>>,
        tgt: TensorView,
        enc: TensorView,
    ) -> Seq<NodeView> {
        stacked_nodes(self.blocks@, base, scope, tgt, enc) + seq![
            rmsnorm_node(
                scope,
                stacked_output(self.blocks@, base, scope, tgt, enc),
                self.d_model,
                self.eps,
            ),
        ]
    }

    /// The handle on the last of [`Self::nodes`].
    pub open spec fn output(
        self,
        base: nat,
        scope: Seq<Seq<char>>,
        tgt: TensorView,
        enc: TensorView,
    ) -> TensorView {
        handle(
            base + 31 * self.blocks@.len(),
            self.nodes(base, scope, tgt, enc).last(),
        )
    }

    /// The stack records 31 nodes per block and one for the final norm.
    pub broadcast proof fn nodes_len(
        self,
        base: nat,
        scope: Seq<Seq<char>>,
        tgt: TensorView,
        enc: TensorView,
    )
        ensures
            #[trigger] self.nodes(base, scope, tgt, enc).len() == 31 * self.blocks@.len() + 1,
    {
        reveal(Decoder::nodes);
        lemma_stacked_len(self.blocks@, base, scope, tgt, enc);
    }

    /// The stack keeps shape and element type of its target input.
    pub broadcast proof fn output_shape(
        self,
        base: nat,
        scope: Seq<Seq<char>>,
        tgt: TensorView,
        enc: TensorView,
    )
        ensures
            #![trigger self.output(base, scope, tgt, enc)]
            self.output(base, scope, tgt, enc).shape == tgt.shape,
            self.output(base, scope, tgt, enc).dtype == tgt.dtype,
    {
        reveal(Decoder::nodes);
        lemma_stacked_shape(self.blocks@, base, scope, tgt, enc);
    }

    /// Every node of the stack reads its inputs or nodes of the stack before it.
    pub proof fn nodes_in_order(
        self,
        base: nat,
        scope: Seq<Seq<char>>,
        tgt: TensorView,
        enc: TensorView,
    )
        requires
            tgt.node < base,
            enc.node < base,
        ensures
            ordered(self.nodes(base, scope, tgt, enc), base),
    {
        reveal(Decoder::nodes);
        let mid = stacked_output(self.blocks@, base, scope, tgt, enc);
        let norm = rmsnorm_node(scope, mid, self.d_model, self.eps);
        lemma_stacked_len(self.blocks@, base, scope, tgt, enc);
        lemma_stacked_in_order(self.blocks@, base, scope, tgt, enc);
        lemma_stacked_output_node(self.blocks@, base, scope, tgt, enc);
        assert(ordered(seq![norm], base + 31 * self.blocks@.len()));
        lemma_ordered(stacked_nodes(self.blocks@, base, scope, tgt, enc), seq![norm], base);
    }

    /// The dataflow of the stack: block `i` reads the last node of block `i - 1`, the first
    /// one the input, all of them the encoder output; the final norm reads the last block,
    /// or the input where there are no blocks.
    pub proof fn dataflow(
        self,
        base: nat,
        scope: Seq<Seq<char>>,
        tgt: TensorView,
        enc: TensorView,
    )
        ensures
            ({
                let n = self.nodes(base, scope, tgt, enc);
                let count = self.blocks@.len() as int;
                &&& n.len() == 31 * count + 1
                &&& forall|i: int|
                    0 <= i < count ==> n.subrange(31 * i, 31 * i + 31) == (
                    #[trigger] self.blocks@[i]).nodes(
                        (base + 31 * i) as nat,
                        scope,
                        TensorView {
                            node: if i == 0 {
                                tgt.node
                            } else {
                                (base + 31 * i - 1) as nat
                            },
                            dtype: tgt.dtype,
                            shape: tgt.shape,
                        },
                        enc,
                    )
                &&& n[31 * count].op == (OpView::RmsNorm {
                    normalized_shape: seq![self.d_model],
                    eps: self.eps,
                    affine: true,
                })
                &&& n[31 * count].inputs == seq![
                    if count == 0 {
                        tgt.node
                    } else {
                        (base + 31 * count - 1) as nat
                    },
                ]
                &&& n[31 * count].name == scope_name(scope)
                &&& n[31 * count].shape == tgt.shape && n[31 * count].dtype == tgt.dtype
                &&& self.output(base, scope, tgt, enc).node == base + 31 * count
            }),
    {
        broadcast use {lemma_stacked_len, lemma_stacked_shape};

        reveal(Decoder::nodes);
        let n = self.nodes(base, scope, tgt, enc);
        let run = stacked_nodes(self.blocks@, base, scope, tgt, enc);
        lemma_stacked_last(self.blocks@, base, scope, tgt, enc);
        assert forall|i: int| 0 <= i < self.blocks@.len() implies n.subrange(
            31 * i,
            31 * i + 31,
        ) == (#[trigger] self.blocks@[i]).nodes(
            (base + 31 * i) as nat,
            scope,
            block_input(base, tgt, i),
            enc,
        ) by {
            lemma_stacked_run(self.blocks@, base, scope, tgt, enc, i);
            assert(n.subrange(31 * i, 31 * i + 31) =~= run.subrange(31 * i, 31 * i + 31));
        }
    }

    /// In a graph that holds the stack's nodes, its output depends on its input, and with a
    /// block on the encoder output too.
    pub proof fn output_depends_on_inputs(
        self,
        all: Seq<NodeView>,
        base: nat,
        scope: Seq<Seq<char>>,
        tgt: TensorView,
        enc: TensorView,
    )
        requires
            forall|k: int|
                0 <= k < self.blocks@.len() ==> 2 * (#[trigger] self.blocks@[k]).ffn.d_ff
                    <= usize::MAX,
            holds_run(all, base, self.nodes(base, scope, tgt, enc)),
        ensures
            depends(all, tgt.node, base + 31 * self.blocks@.len()),
            self.blocks@.len() > 0 ==> depends(all, enc.node, base + 31 * self.blocks@.len()),
    {
        broadcast use lemma_stacked_len;

        let count = self.blocks@.len();
        let n = self.nodes(base, scope, tgt, enc);
        self.dataflow(base, scope, tgt, enc);
        lemma_run_input(all, base, n, 31 * count, 0);
        if count > 0 {
            reveal(Decoder::nodes);
            let run = stacked_nodes(self.blocks@, base, scope, tgt, enc);
            assert(n.subrange(0, 31 * count as int) =~= run);
            lemma_part_of_run(all, base, n, 0, run);
            lemma_stacked_depends(self.blocks@, all, base, scope, tgt, enc, count - 1);
            let last = (base + 31 * count - 1) as nat;
            lemma_depends_trans(all, tgt.node, last, base + 31 * count);
            lemma_depends_trans(all, enc.node, last, base + 31 * count);
        }
    }

    /// What a configuration asks for: as many blocks as it says, each of its width, heads
    /// and base frequency, with the least feed-forward width that is a multiple of 64 and
    /// at least 8/3 of the hidden one, and the widened stability constant throughout.
    pub proof fn built_as_configured(self, cfg: TransformerConfig)
        requires
            self.is_built_from(cfg),
            cfg.n_heads > 0,
            cfg.d_model % cfg.n_heads == 0,
            8 * cfg.d_model <= usize::MAX,
        ensures
            self.blocks@.len() == cfg.n_decoder_layers,
            self.d_model == cfg.d_model,
            self.eps == f32_widened(cfg.eps),
            forall|i: int|
                0 <= i < self.blocks@.len() ==> ({
                    let b = #[trigger] self.blocks@[i];
                    &&& b.d_model == cfg.d_model
                    &&& b.eps == f32_widened(cfg.eps)
                    &&& b.self_attn.d_model == cfg.d_model
                    &&& b.self_attn.n_heads == cfg.n_heads
                    &&& cfg.n_heads * b.self_attn.head_dim == cfg.d_model
                    &&& b.self_attn.rope_base == cfg.rope_base
                    &&& b.self_attn.kind == AttentionKind::Causal
                    &&& b.cross_attn.d_model == cfg.d_model
                    &&& b.cross_attn.n_heads == cfg.n_heads
                    &&& cfg.n_heads * b.cross_attn.head_dim == cfg.d_model
                    &&& b.cross_attn.rope_base == cfg.rope_base
                    &&& b.cross_attn.kind == AttentionKind::Bidirectional
                    &&& b.ffn.d_model == cfg.d_model
                    &&& b.ffn.d_ff % 64 == 0
                    &&& 3 * b.ffn.d_ff - 192 < 8 * cfg.d_model <= 3 * b.ffn.d_ff
                }),
    {
        vstd::arithmetic::div_mod::lemma_fundamental_div_mod(
            cfg.d_model as int,
            cfg.n_heads as int,
        );
    }

    /// Forward: `tgt [S_t, D]`, `enc [S_e, D]` → `dec_out [S_t, D]`.
    pub fn forward(&self, graph: &mut Graph, tgt: SymTensor, enc: SymTensor) -> (t: SymTensor)
        requires
            self.fits(),
            tgt@.shape.len() >= 1,
            enc@.shape.len() >= 1,
        ensures
            final(graph)@ == old(graph)@.extended(
                self.nodes(old(graph)@.nodes.len(), old(graph)@.scope, tgt@, enc@),
            ),
            t@ == self.output(old(graph)@.nodes.len(), old(graph)@.scope, tgt@, enc@),
    {
        broadcast use {lemma_extended, lemma_stacked_len};

        reveal(Decoder::nodes);
        let ghost base = old(graph)@.nodes.len();
        let ghost scope = old(graph)@.scope;
        let ghost input = tgt@;
        let mut tgt = tgt;
        let mut i: usize = 0;
        assert(graph@ =~= old(graph)@.extended(Seq::empty()));
        while i < self.blocks.len()
            invariant
                i <= self.blocks@.len(),
                self.fits(),
                input.shape.len() >= 1,
                enc@.shape.len() >= 1,
                base == old(graph)@.nodes.len(),
                scope == old(graph)@.scope,
                graph@ == old(graph)@.extended(
                    stacked_nodes(self.blocks@.take(i as int), base, scope, input, enc@),
                ),
                tgt@ == stacked_output(self.blocks@.take(i as int), base, scope, input, enc@),
            decreases self.blocks@.len() - i,
        {
            broadcast use {lemma_extended, lemma_stacked_len, lemma_stacked_shape};

            assert(self.blocks@.take(i + 1).drop_last() =~= self.blocks@.take(i as int));
            assert(self.blocks@[i as int].fits());
            tgt = self.blocks[i].forward(graph, tgt, enc.clone());
            i += 1;
        }
        assert(self.blocks@.take(i as int) =~= self.blocks@);
        sym_rmsnorm(graph, tgt, self.d_model, self.eps)
    }
}

} // verus!
