//! Full encoder-decoder transformer with weight-tied embeddings.
//!
//! ```text
//! src_ids → Embedding → Encoder → enc_out ─────────────────────────────────┐
//!                                                                           │
//! tgt_ids → Embedding → Decoder(enc_out) → final_norm → lm_head → logits  │
//!                               ↑───────────────────────────────────────────┘
//!                          cross-attn uses enc_out
//! ```
//!
//! Weight tying: the encoder embedding, decoder embedding, and output `lm_head`
//! projection all have the same name and read a `weight [vocab_size, d_model]` table,
//! so they are loaded from one tensor.

use vstd::prelude::*;

use crate::config::TransformerConfig;
use crate::decoder::Decoder;
use crate::encoder::Encoder;
use crate::graph::{
    depends, handle, holds_run, lemma_depends_trans, lemma_extended, lemma_extended_in_order,
    lemma_ordered, lemma_part_of_run, lemma_run_input, ordered, scope_name, CustomOp, DtypeRepr,
    Graph, GraphView, NodeView, OpView, SymTensor, TensorView,
};
use crate::layers::embedding::{lookups_read_the_ids, TokenEmbedOp};
use crate::layers::{linear_node, TokenEmbedding};

verus! {

/// Full encoder-decoder transformer.
#[derive(Debug)]
pub struct Transformer {
    pub embedding: TokenEmbedding,
    pub encoder: Encoder,
    pub decoder: Decoder,
}

impl Transformer {
    /// The model holds the embedding, the encoder and the decoder of `cfg`.
    pub open spec fn is_built_from(self, cfg: TransformerConfig) -> bool {
        &&& self.embedding == (TokenEmbedding { vocab_size: cfg.vocab_size, d_model: cfg.d_model })
        &&& self.encoder.is_built_from(cfg)
        &&& self.decoder.is_built_from(cfg)
    }

    /// Derived widths fit a word.
    pub open spec fn fits(self) -> bool {
        self.encoder.fits() && self.decoder.fits()
    }

    pub fn new(cfg: &TransformerConfig) -> (r: Self)
        requires
            cfg.n_encoder_layers > 0 || cfg.n_decoder_layers > 0 ==> cfg.valid(),
        ensures
            r.is_built_from(*cfg),
            r.fits(),
    {
        Transformer {
            embedding: TokenEmbedding::new(cfg.vocab_size, cfg.d_model),
            encoder: Encoder::new(cfg),
            decoder: Decoder::new(cfg),
        }
    }

    /// The number of nodes before the target lookup.
    pub open spec fn encoder_len(self) -> nat {
        18 * self.encoder.blocks@.len() + 2
    }

    /// The number of nodes before the output projection.
    pub open spec fn decoder_len(self) -> nat {
        self.encoder_len() + 31 * self.decoder.blocks@.len() + 2
    }

    /// The nodes that the model records, the first of them at `base`.
    #[verifier::opaque]
    pub open spec fn nodes(
        self,
        base: nat,
        scope: Seq<Seq<char>>,
        src_ids: TensorView,
        tgt_ids: TensorView,
    ) -> Seq<NodeView> {
        let src = self.embedding.lookup_node(scope, src_ids);
        let src_emb = handle(base, src);
        let enc_out = self.encoder.output(base + 1, scope, src_emb);
        let mid = base + self.encoder_len();
        let tgt = self.embedding.lookup_node(scope, tgt_ids);
        let tgt_emb = handle(mid, tgt);
        let dec_out = self.decoder.output(mid + 1, scope, tgt_emb, enc_out);
        let head = linear_node(
            scope,
            dec_out,
            self.embedding.d_model,
            self.embedding.vocab_size,
        );
        seq![src] + self.encoder.nodes(base + 1, scope, src_emb) + seq![tgt] + self.decoder.nodes(
            mid + 1,
            scope,
            tgt_emb,
            enc_out,
        ) + seq![head]
    }

    /// The handle on the last of [`Self::nodes`], the logits.
    pub open spec fn output(
        self,
        base: nat,
        scope: Seq<Seq<char>>,
        src_ids: TensorView,
        tgt_ids: TensorView,
    ) -> TensorView {
        handle(base + self.decoder_len(), self.nodes(base, scope, src_ids, tgt_ids).last())
    }

    /// The model records 18 nodes per encoder block, 31 per decoder block and five more.
    pub proof fn nodes_len(
        self,
        base: nat,
        scope: Seq<Seq<char>>,
        src_ids: TensorView,
        tgt_ids: TensorView,
    )
        ensures
            self.nodes(base, scope, src_ids, tgt_ids).len() == 18 * self.encoder.blocks@.len() + 31
                * self.decoder.blocks@.len() + 5,
    {
        broadcast use {Encoder::nodes_len, Decoder::nodes_len};

        reveal(Transformer::nodes);
    }

    /// The logits have one row per target token and one column per vocabulary entry,
    /// in single precision.
    pub proof fn logits_shape(
        self,
        base: nat,
        scope: Seq<Seq<char>>,
        src_ids: TensorView,
        tgt_ids: TensorView,
    )
        requires
            tgt_ids.shape.len() >= 1,
        ensures
            self.output(base, scope, src_ids, tgt_ids).shape == seq![
                tgt_ids.shape[0],
                Some(self.embedding.vocab_size),
            ],
            self.output(base, scope, src_ids, tgt_ids).dtype == DtypeRepr::F32,
    {
        broadcast use Decoder::output_shape;

        reveal(Transformer::nodes);
        assert(self.output(base, scope, src_ids, tgt_ids).shape =~= seq![
            tgt_ids.shape[0],
            Some(self.embedding.vocab_size),
        ]);
    }

    /// Both lookups read a `[vocab_size, d_model]` table, and the last node projects
    /// through a table of the same extent. The three nodes have one name, so a checkpoint
    /// has one key for their tables.
    pub proof fn tables_are_tied(
        self,
        base: nat,
        scope: Seq<Seq<char>>,
        src_ids: TensorView,
        tgt_ids: TensorView,
    )
        ensures
            self.nodes(base, scope, src_ids, tgt_ids).first() == self.embedding.lookup_node(
                scope,
                src_ids,
            ),
            self.nodes(base, scope, src_ids, tgt_ids)[self.encoder_len() as int]
                == self.embedding.lookup_node(scope, tgt_ids),
            self.nodes(base, scope, src_ids, tgt_ids).last().op == (OpView::Linear {
                in_features: self.embedding.d_model,
                out_features: self.embedding.vocab_size,
                has_bias: false,
            }),
            ({
                let nodes = self.nodes(base, scope, src_ids, tgt_ids);
                let name = nodes.first().name;
                &&& nodes[self.encoder_len() as int].name == name
                &&& nodes.last().name == name
            }),
    {
        broadcast use {Encoder::nodes_len, Decoder::nodes_len};

        reveal(Transformer::nodes);
    }

    /// Every node of the model reads the token ids or nodes of the model before it.
    pub proof fn nodes_in_order(
        self,
        base: nat,
        scope: Seq<Seq<char>>,
        src_ids: TensorView,
        tgt_ids: TensorView,
    )
        requires
            src_ids.node < base,
            tgt_ids.node < base,
        ensures
            ordered(self.nodes(base, scope, src_ids, tgt_ids), base),
    {
        broadcast use {lemma_ordered, Encoder::nodes_len, Decoder::nodes_len};

        reveal(Transformer::nodes);
        let src = self.embedding.lookup_node(scope, src_ids);
        let src_emb = handle(base, src);
        self.encoder.nodes_in_order(base + 1, scope, src_emb);
        let enc_out = self.encoder.output(base + 1, scope, src_emb);
        let mid = base + self.encoder_len();
        let tgt = self.embedding.lookup_node(scope, tgt_ids);
        let tgt_emb = handle(mid, tgt);
        self.decoder.nodes_in_order(mid + 1, scope, tgt_emb, enc_out);
        let dec_out = self.decoder.output(mid + 1, scope, tgt_emb, enc_out);
        let head = linear_node(
            scope,
            dec_out,
            self.embedding.d_model,
            self.embedding.vocab_size,
        );
        assert(ordered(seq![src], base));
        assert(ordered(seq![tgt], mid));
        assert(ordered(seq![head], base + self.decoder_len()));
    }

    /// Recording the model keeps a graph in order, and the logits are its last node.
    pub proof fn forward_keeps_order(self, g: GraphView, src_ids: TensorView, tgt_ids: TensorView)
        requires
            g.wf(),
            g.has(src_ids),
            g.has(tgt_ids),
        ensures
            ({
                let base = g.nodes.len();
                let after = g.extended(self.nodes(base, g.scope, src_ids, tgt_ids));
                let logits = self.output(base, g.scope, src_ids, tgt_ids);
                &&& after.wf()
                &&& after.has(logits)
                &&& logits.node == after.nodes.len() - 1
            }),
    {
        let base = g.nodes.len();
        self.nodes_len(base, g.scope, src_ids, tgt_ids);
        self.nodes_in_order(base, g.scope, src_ids, tgt_ids);
        lemma_extended_in_order(g, self.nodes(base, g.scope, src_ids, tgt_ids));
    }

    /// The dataflow of the model: the encoder reads the lookup of the source ids; the decoder
    /// reads the lookup of the target ids, and the last node of the encoder as its encoder
    /// output; the head reads the last node of the decoder and nothing else.
    pub proof fn dataflow(
        self,
        base: nat,
        scope: Seq<Seq<char>>,
        src_ids: TensorView,
        tgt_ids: TensorView,
    )
        requires
            src_ids.shape.len() >= 1,
            tgt_ids.shape.len() >= 1,
        ensures
            ({
                let n = self.nodes(base, scope, src_ids, tgt_ids);
                let d = self.embedding.d_model;
                let lookup = OpView::Custom(
                    CustomOp::TokenEmbed(
                        TokenEmbedOp { vocab_size: self.embedding.vocab_size, d_model: d },
                    ),
                );
                let e = 18 * self.encoder.blocks@.len() as int;
                let f = 31 * self.decoder.blocks@.len() as int;
                let src = TensorView {
                    node: base,
                    dtype: DtypeRepr::F32,
                    shape: seq![src_ids.shape[0], Some(d)],
                };
                let enc = TensorView {
                    node: (base + e + 1) as nat,
                    dtype: DtypeRepr::F32,
                    shape: seq![src_ids.shape[0], Some(d)],
                };
                let tgt = TensorView {
                    node: (base + e + 2) as nat,
                    dtype: DtypeRepr::F32,
                    shape: seq![tgt_ids.shape[0], Some(d)],
                };
                &&& n.len() == e + f + 5
                &&& n[0].op == lookup && n[0].inputs == seq![src_ids.node]
                &&& n.subrange(1, e + 2) == self.encoder.nodes((base + 1) as nat, scope, src)
                &&& n[e + 2].op == lookup && n[e + 2].inputs == seq![tgt_ids.node]
                &&& n.subrange(e + 3, e + f + 4) == self.decoder.nodes(
                    (base + e + 3) as nat,
                    scope,
                    tgt,
                    enc,
                )
                &&& n[e + f + 4].op == (OpView::Linear {
                    in_features: d,
                    out_features: self.embedding.vocab_size,
                    has_bias: false,
                })
                &&& n[e + f + 4].inputs == seq![(base + e + f + 3) as nat]
                &&& n[0].shape == src.shape && n[0].dtype == DtypeRepr::F32
                &&& n[e + 2].shape == tgt.shape && n[e + 2].dtype == DtypeRepr::F32
                &&& n[e + f + 4].shape == seq![
                    tgt_ids.shape[0],
                    Some(self.embedding.vocab_size),
                ]
                &&& n[e + f + 4].dtype == DtypeRepr::F32
                &&& n[0].name == scope_name(scope) && n[e + 2].name == scope_name(scope)
                &&& n[e + f + 4].name == scope_name(scope)
                &&& self.output(base, scope, src_ids, tgt_ids).node == base + e + f + 4
            }),
    {
        broadcast use {
            Encoder::nodes_len,
            Encoder::output_shape,
            Decoder::nodes_len,
            Decoder::output_shape,
        };

        reveal(Transformer::nodes);
        lookups_read_the_ids(self.embedding, scope, src_ids);
        lookups_read_the_ids(self.embedding, scope, tgt_ids);
        let n = self.nodes(base, scope, src_ids, tgt_ids);
        let e = 18 * self.encoder.blocks@.len() as int;
        let f = 31 * self.decoder.blocks@.len() as int;
        let src = handle(base, self.embedding.lookup_node(scope, src_ids));
        let tgt = handle((base + e + 2) as nat, self.embedding.lookup_node(scope, tgt_ids));
        let enc = self.encoder.output(base + 1, scope, src);
        assert(n[e + f + 4].shape =~= seq![tgt_ids.shape[0], Some(self.embedding.vocab_size)]);
        assert(n.subrange(1, e + 2) =~= self.encoder.nodes(base + 1, scope, src));
        assert(n.subrange(e + 3, e + f + 4) =~= self.decoder.nodes(
            (base + e + 3) as nat,
            scope,
            tgt,
            enc,
        ));
    }

    /// In a graph that holds the model's nodes, the logits depend on the target ids, and with
    /// a decoder block on the source ids too.
    pub proof fn logits_depend_on_ids(
        self,
        all: Seq<NodeView>,
        base: nat,
        scope: Seq<Seq<char>>,
        src_ids: TensorView,
        tgt_ids: TensorView,
    )
        requires
            src_ids.shape.len() >= 1,
            tgt_ids.shape.len() >= 1,
            forall|k: int|
                0 <= k < self.encoder.blocks@.len() ==> 2 * (
                #[trigger] self.encoder.blocks@[k]).ffn.d_ff <= usize::MAX,
            forall|k: int|
                0 <= k < self.decoder.blocks@.len() ==> 2 * (
                #[trigger] self.decoder.blocks@[k]).ffn.d_ff <= usize::MAX,
            holds_run(all, base, self.nodes(base, scope, src_ids, tgt_ids)),
        ensures
            ({
                let logits = base + 18 * self.encoder.blocks@.len() + 31
                    * self.decoder.blocks@.len() + 4;
                &&& depends(all, tgt_ids.node, logits)
                &&& self.decoder.blocks@.len() > 0 ==> depends(all, src_ids.node, logits)
            }),
    {
        broadcast use {Encoder::nodes_len, Decoder::nodes_len};

        self.dataflow(base, scope, src_ids, tgt_ids);
        let n = self.nodes(base, scope, src_ids, tgt_ids);
        let d = self.embedding.d_model;
        let e = 18 * self.encoder.blocks@.len();
        let f = 31 * self.decoder.blocks@.len();
        let src = TensorView {
            node: base,
            dtype: DtypeRepr::F32,
            shape: seq![src_ids.shape[0], Some(d)],
        };
        let enc = TensorView {
            node: base + e + 1,
            dtype: DtypeRepr::F32,
            shape: seq![src_ids.shape[0], Some(d)],
        };
        let tgt = TensorView {
            node: base + e + 2,
            dtype: DtypeRepr::F32,
            shape: seq![tgt_ids.shape[0], Some(d)],
        };
        lemma_run_input(all, base, n, 0, 0);
        lemma_run_input(all, base, n, e + 2, 0);
        lemma_run_input(all, base, n, e + f + 4, 0);
        lemma_part_of_run(all, base, n, 1, self.encoder.nodes(base + 1, scope, src));
        self.encoder.output_depends_on_input(all, base + 1, scope, src);
        lemma_part_of_run(all, base, n, e + 3, self.decoder.nodes(base + e + 3, scope, tgt, enc));
        self.decoder.output_depends_on_inputs(all, base + e + 3, scope, tgt, enc);
        let last = base + e + f + 3;
        let logits = base + e + f + 4;
        lemma_depends_trans(all, tgt_ids.node, tgt.node, last);
        lemma_depends_trans(all, tgt_ids.node, last, logits);
        if self.decoder.blocks@.len() > 0 {
            lemma_depends_trans(all, src_ids.node, base + 0, enc.node);
            lemma_depends_trans(all, src_ids.node, enc.node, last);
            lemma_depends_trans(all, src_ids.node, last, logits);
        }
    }

    /// What a configuration asks for: one embedding of its vocabulary and width, and the
    /// encoder and decoder that it asks for.
    pub proof fn built_as_configured(self, cfg: TransformerConfig)
        requires
            self.is_built_from(cfg),
        ensures
            self.embedding.vocab_size == cfg.vocab_size,
            self.embedding.d_model == cfg.d_model,
            self.encoder.is_built_from(cfg),
            self.decoder.is_built_from(cfg),
            self.encoder.blocks@.len() == cfg.n_encoder_layers,
            self.decoder.blocks@.len() == cfg.n_decoder_layers,
    {
    }

    /// Forward pass.
    ///
    /// - `src_ids [S_src]` — encoder input token IDs (f32-encoded)
    /// - `tgt_ids [S_tgt]` — decoder input token IDs (f32-encoded, shifted right)
    ///
    /// Returns `logits [S_tgt, vocab_size]`.
    pub fn forward(&self, graph: &mut Graph, src_ids: SymTensor, tgt_ids: SymTensor) -> (t:
        SymTensor)
        requires
            self.fits(),
            src_ids@.shape.len() >= 1,
            tgt_ids@.shape.len() >= 1,
        ensures
            final(graph)@ == old(graph)@.extended(
                self.nodes(old(graph)@.nodes.len(), old(graph)@.scope, src_ids@, tgt_ids@),
            ),
            t@ == self.output(old(graph)@.nodes.len(), old(graph)@.scope, src_ids@, tgt_ids@),
    {
        broadcast use {
            lemma_extended,
            Encoder::nodes_len,
            Encoder::output_shape,
            Decoder::nodes_len,
            Decoder::output_shape,
        };

        reveal(Transformer::nodes);
        let src_emb = self.embedding.forward(graph, src_ids);
        let enc_out = self.encoder.forward(graph, src_emb);

        let tgt_emb = self.embedding.forward(graph, tgt_ids);
        let dec_out = self.decoder.forward(graph, tgt_emb, enc_out);

        self.embedding.output_proj(graph, dec_out)
    }
}

} // verus!
