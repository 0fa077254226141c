//! Transformer encoder stack.
//!
//! N identical `EncoderBlock`s followed by a final `RMSNorm`.

use vstd::prelude::*;

use crate::config::{swiglu_width, TransformerConfig};
use crate::graph::{
    depends, handle, holds_run, lemma_depends_trans, lemma_extended, lemma_ordered,
    lemma_part_of_run, lemma_run_input, ordered, scope_name, Graph, NodeView, OpView, SymTensor,
    TensorView,
};
use crate::ieee::{f32_to_f64, f32_widened, F64Bits};
use crate::layers::attention::AttentionKind;
use crate::layers::{rmsnorm_node, sym_rmsnorm, EncoderBlock};

verus! {

/// Stacked encoder blocks + final norm.
#[derive(Debug)]
pub struct Encoder {
    pub blocks: Vec<EncoderBlock>,
    pub d_model: usize,
    pub eps: F64Bits,
}

/// The nodes of `blocks` applied one after the other, the first node at `base`.
pub open spec fn stacked_nodes(
    blocks: Seq<EncoderBlock>,
    base: nat,
    scope: Seq<Seq<char>>,
    x: TensorView,
) -> Seq<NodeView>
    decreases blocks.len(),
{
    if blocks.len() == 0 {
        Seq::empty()
    } else {
        let below = blocks.drop_last();
        stacked_nodes(below, base, scope, x) + blocks.last().nodes(
            base + 18 * below.len(),
            scope,
            stacked_output(below, base, scope, x),
        )
    }
}

/// What `blocks` applied one after the other return.
pub open spec fn stacked_output(
    blocks: Seq<EncoderBlock>,
    base: nat,
    scope: Seq<Seq<char>>,
    x: TensorView,
) -> TensorView
    decreases blocks.len(),
{
    if blocks.len() == 0 {
        x
    } else {
        let below = blocks.drop_last();
        blocks.last().output(
            base + 18 * below.len(),
            scope,
            stacked_output(below, base, scope, x),
        )
    }
}

/// Each block records 18 nodes.
pub broadcast proof fn lemma_stacked_len(
    blocks: Seq<EncoderBlock>,
    base: nat,
    scope: Seq<Seq<char>>,
    x: TensorView,
)
    ensures
        #[trigger] stacked_nodes(blocks, base, scope, x).len() == 18 * blocks.len(),
    decreases blocks.len(),
{
    if blocks.len() > 0 {
        broadcast use EncoderBlock::nodes_len;

        lemma_stacked_len(blocks.drop_last(), base, scope, x);
    }
}

/// Stacked blocks keep shape and element type.
pub broadcast proof fn lemma_stacked_shape(
    blocks: Seq<EncoderBlock>,
    base: nat,
    scope: Seq<Seq<char>>,
    x: TensorView,
)
    ensures
        #![trigger stacked_output(blocks, base, scope, x)]
        stacked_output(blocks, base, scope, x).shape == x.shape,
        stacked_output(blocks, base, scope, x).dtype == x.dtype,
    decreases blocks.len(),
{
    if blocks.len() > 0 {
        broadcast use EncoderBlock::output_shape;

        lemma_stacked_shape(blocks.drop_last(), base, scope, x);
    }
}

/// The stack returns its input, or the last node that it recorded.
proof fn lemma_stacked_output_node(
    blocks: Seq<EncoderBlock>,
    base: nat,
    scope: Seq<Seq<char>>,
    x: TensorView,
)
    requires
        x.node < base,
    ensures
        stacked_output(blocks, base, scope, x).node < base + 18 * blocks.len(),
{
}

/// Every node of the stack reads its input or nodes of the stack before it.
proof fn lemma_stacked_in_order(
    blocks: Seq<EncoderBlock>,
    base: nat,
    scope: Seq<Seq<char>>,
    x: TensorView,
)
    requires
        x.node < base,
    ensures
        ordered(stacked_nodes(blocks, base, scope, x), base),
    decreases blocks.len(),
{
    if blocks.len() > 0 {
        let below = blocks.drop_last();
        lemma_stacked_len(below, base, scope, x);
        lemma_stacked_in_order(below, base, scope, x);
        lemma_stacked_output_node(below, base, scope, x);
        let mid = stacked_output(below, base, scope, x);
        blocks.last().nodes_in_order(base + 18 * below.len(), scope, mid);
        lemma_ordered(
            stacked_nodes(below, base, scope, x),
            blocks.last().nodes(base + 18 * below.len(), scope, mid),
            base,
        );
    }
}

/// The stack returns its input, or the last node of its last block.
proof fn lemma_stacked_last(
    blocks: Seq<EncoderBlock>,
    base: nat,
    scope: Seq<Seq<char>>,
    x: TensorView,
)
    ensures
        stacked_output(blocks, base, scope, x).node == (if blocks.len() == 0 {
            x.node
        } else {
            (base + 18 * blocks.len() - 1) as nat
        }),
{
}

/// What block `i` of a stack on `x` reads: the input of the stack, or the last node of
/// the block before it, of the same shape and element type.
spec fn block_input(base: nat, x: TensorView, i: int) -> TensorView {
    TensorView {
        node: if i == 0 {
            x.node
        } else {
            (base + 18 * i - 1) as nat
        },
        dtype: x.dtype,
        shape: x.shape,
    }
}

/// Each block of a stack takes up where the one before it ends.
proof fn lemma_stacked_run(
    blocks: Seq<EncoderBlock>,
    base: nat,
    scope: Seq<Seq<char>>,
    x: TensorView,
    i: int,
)
    requires
        0 <= i < blocks.len(),
    ensures
        stacked_nodes(blocks, base, scope, x).len() == 18 * blocks.len(),
        stacked_nodes(blocks, base, scope, x).subrange(18 * i, 18 * i + 18)
            == blocks[i].nodes(
            (base + 18 * i) as nat,
            scope,
            block_input(base, x, i),
        ),
    decreases blocks.len(),
{
    broadcast use {lemma_stacked_len, lemma_stacked_shape, EncoderBlock::nodes_len};

    let below = blocks.drop_last();
    let all = stacked_nodes(blocks, base, scope, x);
    let part = blocks[i].nodes((base + 18 * i) as nat, scope, block_input(base, x, i));
    if i == blocks.len() - 1 {
        lemma_stacked_last(below, base, scope, x);
        assert(stacked_output(below, base, scope, x) == block_input(base, x, i));
        assert(all.subrange(18 * i, 18 * i + 18) =~= part);
    } else {
        lemma_stacked_run(below, base, scope, x, i);
        let first = stacked_nodes(below, base, scope, x);
        assert(all.subrange(18 * i, 18 * i + 18) =~= first.subrange(18 * i, 18 * i + 18));
    }
}

/// In a graph that holds a stack's nodes, what the stack returns depends on its input.
proof fn lemma_stacked_depends(
    blocks: Seq<EncoderBlock>,
    all: Seq<NodeView>,
    base: nat,
    scope: Seq<Seq<char>>,
    x: TensorView,
    i: int,
)
    requires
        0 <= i < blocks.len(),
        forall|k: int| 0 <= k < blocks.len() ==> 2 * (#[trigger] blocks[k]).ffn.d_ff <= usize::MAX,
        holds_run(all, base, stacked_nodes(blocks, base, scope, x)),
    ensures
        depends(all, x.node, (base + 18 * i + 17) as nat),
    decreases i,
{
    broadcast use EncoderBlock::nodes_len;

    let nodes = stacked_nodes(blocks, base, scope, x);
    let at = (base + 18 * i) as nat;
    let input = block_input(base, x, i);
    lemma_stacked_run(blocks, base, scope, x, i);
    lemma_part_of_run(all, base, nodes, (18 * i) as nat, blocks[i].nodes(at, scope, input));
    blocks[i].output_depends_on_input(all, at, scope, input);
    if i > 0 {
        lemma_stacked_depends(blocks, all, base, scope, x, i - 1);
        lemma_depends_trans(all, x.node, input.node, (base + 18 * i + 17) as nat);
    }
}

impl Encoder {
    /// The stack holds one block per layer of `cfg`, all alike, and its final norm.
    pub open spec fn is_built_from(self, cfg: TransformerConfig) -> bool {
        &&& self.blocks@ == Seq::new(
            cfg.n_encoder_layers as nat,
            |i: int|
                EncoderBlock::of(
                    cfg.d_model,
                    cfg.n_heads,
                    swiglu_width(cfg.d_model as nat) as usize,
                    cfg.rope_base,
                    f32_widened(cfg.eps) as u64,
                ),
        )
        &&& self.d_model == cfg.d_model
        &&& self.eps == f32_widened(cfg.eps)
    }

    /// Derived widths fit a word.
    pub open spec fn fits(self) -> bool {
        forall|i: int| 0 <= i < self.blocks@.len() ==> (#[trigger] self.blocks@[i]).fits()
    }

    pub fn new(cfg: &TransformerConfig) -> (r: Self)
        requires
            cfg.n_encoder_layers > 0 ==> cfg.valid(),
        ensures
            r.is_built_from(*cfg),
            r.fits(),
    {
        let eps: F64Bits = f32_to_f64(cfg.eps);
        let mut blocks: Vec<EncoderBlock> = Vec::new();
        let mut i: usize = 0;
        while i < cfg.n_encoder_layers
            invariant
                i <= cfg.n_encoder_layers,
                cfg.n_encoder_layers > 0 ==> cfg.valid(),
                eps == f32_widened(cfg.eps),
                blocks@.len() == i,
                forall|k: int|
                    0 <= k < i ==> #[trigger] blocks@[k] == EncoderBlock::of(
                        cfg.d_model,
                        cfg.n_heads,
                        swiglu_width(cfg.d_model as nat) as usize,
                        cfg.rope_base,
                        eps,
                    ),
                forall|k: int| 0 <= k < i ==> (#[trigger] blocks@[k]).fits(),
            decreases cfg.n_encoder_layers - i,
        {
            let block = EncoderBlock::new(cfg.d_model, cfg.n_heads, cfg.d_ff(), cfg.rope_base, eps);
            assert(block.fits());
            blocks.push(block);
            i += 1;
        }
        let r = Encoder { blocks, d_model: cfg.d_model, eps };
        assert(r.blocks@ =~= Seq::new(
            cfg.n_encoder_layers as nat,
            |i: int|
                EncoderBlock::of(
                    cfg.d_model,
                    cfg.n_heads,
                    swiglu_width(cfg.d_model as nat) as usize,
                    cfg.rope_base,
                    f32_widened(cfg.eps) as u64,
                ),
        ));
        r
    }

    /// The nodes that the stack records, the first of them at `base`.
    #[verifier::opaque]
    pub open spec fn nodes(
        self,
        base: nat,
        scope: Seq<Seq<char>>,
        x: TensorView,
    ) -> Seq<NodeView> {
        stacked_nodes(self.blocks@, base, scope, x) + seq![
            rmsnorm_node(
                scope,
                stacked_output(self.blocks@, base, scope, x),
                self.d_model,
                self.eps,
            ),
        ]
    }

    /// The handle on the last of [`Self::nodes`].
    pub open spec fn output(
        self,
        base: nat,
        scope: Seq<Seq<char>>,
        x: TensorView,
    ) -> TensorView {
        handle(
            base + 18 * self.blocks@.len(),
            self.nodes(base, scope, x).last(),
        )
    }

    /// The stack records 18 nodes per block and one for the final norm.
    pub broadcast proof fn nodes_len(
        self,
        base: nat,
        scope: Seq<Seq<char>>,
        x: TensorView,
    )
        ensures
            #[trigger] self.nodes(base, scope, x).len() == 18 * self.blocks@.len() + 1,
    {
        reveal(Encoder::nodes);
        lemma_stacked_len(self.blocks@, base, scope, x);
    }

    /// The stack keeps shape and element type.
    pub broadcast proof fn output_shape(
        self,
        base: nat,
        scope: Seq<Seq<char>>,
        x: TensorView,
    )
        ensures
            #![trigger self.output(base, scope, x)]
            self.output(base, scope, x).shape == x.shape,
            self.output(base, scope, x).dtype == x.dtype,
    {
        reveal(Encoder::nodes);
        lemma_stacked_shape(self.blocks@, base, scope, x);
    }

    /// Every node of the stack reads its input or nodes of the stack before it.
    pub proof fn nodes_in_order(
        self,
        base: nat,
        scope: Seq<Seq<char>>,
        x: TensorView,
    )
        requires
            x.node < base,
        ensures
            ordered(self.nodes(base, scope, x), base),
    {
        reveal(Encoder::nodes);
        let mid = stacked_output(self.blocks@, base, scope, x);
        let norm = rmsnorm_node(scope, mid, self.d_model, self.eps);
        lemma_stacked_len(self.blocks@, base, scope, x);
        lemma_stacked_in_order(self.blocks@, base, scope, x);
        lemma_stacked_output_node(self.blocks@, base, scope, x);
        assert(ordered(seq![norm], base + 18 * self.blocks@.len()));
        lemma_ordered(stacked_nodes(self.blocks@, base, scope, x), seq![norm], base);
    }

    /// The dataflow of the stack: block `i` reads the last node of block `i - 1`, the first
    /// one the input; the final norm reads the last block,
    /// or the input where there are no blocks.
    pub proof fn dataflow(
        self,
        base: nat,
        scope: Seq<Seq<char>>,
        x: TensorView,
    )
        ensures
            ({
                let n = self.nodes(base, scope, x);
                let count = self.blocks@.len() as int;
                &&& n.len() == 18 * count + 1
                &&& forall|i: int|
                    0 <= i < count ==> n.subrange(18 * i, 18 * i + 18) == (
                    #[trigger] self.blocks@[i]).nodes(
                        (base + 18 * i) as nat,
                        scope,
                        TensorView {
                            node: if i == 0 {
                                x.node
                            } else {
                                (base + 18 * i - 1) as nat
                            },
                            dtype: x.dtype,
                            shape: x.shape,
                        },
                    )
                &&& n[18 * count].op == (OpView::RmsNorm {
                    normalized_shape: seq![self.d_model],
                    eps: self.eps,
                    affine: true,
                })
                &&& n[18 * count].inputs == seq![
                    if count == 0 {
                        x.node
                    } else {
                        (base + 18 * count - 1) as nat
                    },
                ]
                &&& n[18 * count].name == scope_name(scope)
                &&& n[18 * count].shape == x.shape && n[18 * count].dtype == x.dtype
                &&& self.output(base, scope, x).node == base + 18 * count
            }),
    {
        broadcast use {lemma_stacked_len, lemma_stacked_shape};

        reveal(Encoder::nodes);
        let n = self.nodes(base, scope, x);
        let run = stacked_nodes(self.blocks@, base, scope, x);
        lemma_stacked_last(self.blocks@, base, scope, x);
        assert forall|i: int| 0 <= i < self.blocks@.len() implies n.subrange(
            18 * i,
            18 * i + 18,
        ) == (#[trigger] self.blocks@[i]).nodes(
            (base + 18 * i) as nat,
            scope,
            block_input(base, x, i),
        ) by {
            lemma_stacked_run(self.blocks@, base, scope, x, i);
            assert(n.subrange(18 * i, 18 * i + 18) =~= run.subrange(18 * i, 18 * i + 18));
        }
    }

    /// In a graph that holds the stack's nodes, its output depends on its input.
    pub proof fn output_depends_on_input(
        self,
        all: Seq<NodeView>,
        base: nat,
        scope: Seq<Seq<char>>,
        x: TensorView,
    )
        requires
            forall|k: int|
                0 <= k < self.blocks@.len() ==> 2 * (#[trigger] self.blocks@[k]).ffn.d_ff
                    <= usize::MAX,
            holds_run(all, base, self.nodes(base, scope, x)),
        ensures
            depends(all, x.node, base + 18 * self.blocks@.len()),
    {
        broadcast use lemma_stacked_len;

        let count = self.blocks@.len();
        let n = self.nodes(base, scope, x);
        self.dataflow(base, scope, x);
        lemma_run_input(all, base, n, 18 * count, 0);
        if count > 0 {
            reveal(Encoder::nodes);
            let run = stacked_nodes(self.blocks@, base, scope, x);
            assert(n.subrange(0, 18 * count as int) =~= run);
            lemma_part_of_run(all, base, n, 0, run);
            lemma_stacked_depends(self.blocks@, all, base, scope, x, count - 1);
            let last = (base + 18 * count - 1) as nat;
            lemma_depends_trans(all, x.node, last, base + 18 * count);
        }
    }

    /// What a configuration asks for: as many blocks as it says, each of its width, heads
    /// and base frequency, with the least feed-forward width that is a multiple of 64 and
    /// at least 8/3 of the hidden one, and the widened stability constant throughout.
    pub proof fn built_as_configured(self, cfg: TransformerConfig)
        requires
            self.is_built_from(cfg),
            cfg.n_heads > 0,
            cfg.d_model % cfg.n_heads == 0,
            8 * cfg.d_model <= usize::MAX,
        ensures
            self.blocks@.len() == cfg.n_encoder_layers,
            self.d_model == cfg.d_model,
            self.eps == f32_widened(cfg.eps),
            forall|i: int|
                0 <= i < self.blocks@.len() ==> ({
                    let b = #[trigger] self.blocks@[i];
                    &&& b.d_model == cfg.d_model
                    &&& b.eps == f32_widened(cfg.eps)
                    &&& b.self_attn.d_model == cfg.d_model
                    &&& b.self_attn.n_heads == cfg.n_heads
                    &&& cfg.n_heads * b.self_attn.head_dim == cfg.d_model
                    &&& b.self_attn.rope_base == cfg.rope_base
                    &&& b.self_attn.kind == AttentionKind::Bidirectional
                    &&& b.ffn.d_model == cfg.d_model
                    &&& b.ffn.d_ff % 64 == 0
                    &&& 3 * b.ffn.d_ff - 192 < 8 * cfg.d_model <= 3 * b.ffn.d_ff
                }),
    {
        vstd::arithmetic::div_mod::lemma_fundamental_div_mod(
            cfg.d_model as int,
            cfg.n_heads as int,
        );
    }

    /// Forward: `x [S, D]` → `enc_out [S, D]`.
    pub fn forward(&self, graph: &mut Graph, x: SymTensor) -> (t: SymTensor)
        requires
            self.fits(),
            x@.shape.len() >= 1,
        ensures
            final(graph)@ == old(graph)@.extended(
                self.nodes(old(graph)@.nodes.len(), old(graph)@.scope, x@),
            ),
            t@ == self.output(old(graph)@.nodes.len(), old(graph)@.scope, x@),
    {
        broadcast use {lemma_extended, lemma_stacked_len};

        reveal(Encoder::nodes);
        let ghost base = old(graph)@.nodes.len();
        let ghost scope = old(graph)@.scope;
        let ghost input = x@;
        let mut x = x;
        let mut i: usize = 0;
        assert(graph@ =~= old(graph)@.extended(Seq::empty()));
        while i < self.blocks.len()
            invariant
                i <= self.blocks@.len(),
                self.fits(),
                input.shape.len() >= 1,
                base == old(graph)@.nodes.len(),
                scope == old(graph)@.scope,
                graph@ == old(graph)@.extended(
                    stacked_nodes(self.blocks@.take(i as int), base, scope, input),
                ),
                x@ == stacked_output(self.blocks@.take(i as int), base, scope, input),
            decreases self.blocks@.len() - i,
        {
            broadcast use {lemma_extended, lemma_stacked_len, lemma_stacked_shape};

            assert(self.blocks@.take(i + 1).drop_last() =~= self.blocks@.take(i as int));
            assert(self.blocks@[i as int].fits());
            x = self.blocks[i].forward(graph, x);
            i += 1;
        }
        assert(self.blocks@.take(i as int) =~= self.blocks@);
        sym_rmsnorm(graph, x, self.d_model, self.eps)
    }
}

} // verus!
