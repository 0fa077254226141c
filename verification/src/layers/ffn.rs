//! SwiGLU feed-forward network.
//!
//! ```text
//! x [S, D] --W_gate+W_up--> [S, 2*d_ff] --SwiGLU--> [S, d_ff] --W_down--> [S, D]
//! ```
//!
//! Gate and up projections are fused into one weight matrix, so that the
//! SwiGLU kernel receives its `[S, 2*d_ff]` input from a single node.

use vstd::prelude::*;

use crate::graph::{
    custom_node, depends, handle, holds_run, lemma_depends_trans, lemma_run_input,
    lemma_scope_closed, ordered, scope_name, CustomOp, Graph, NodeView, OpView, SymTensor,
    TensorView,
};
use crate::kernels::swiglu::SwigluOp;
use crate::layers::{linear_node, sym_linear};

verus! {

/// SwiGLU feed-forward network.
#[derive(Clone, Copy, Debug, PartialEq, Eq, Structural)]
pub struct FeedForward {
    pub d_model: usize,
    pub d_ff: usize,
}

impl FeedForward {
    pub fn new(d_model: usize, d_ff: usize) -> (r: Self)
        ensures
            r == (FeedForward { d_model, d_ff }),
    {
        FeedForward { d_model, d_ff }
    }

    /// The fused gate and up width fits a word.
    pub open spec fn fits(self) -> bool {
        2 * self.d_ff <= usize::MAX
    }

    /// The fused gate and up projection.
    pub open spec fn gate_up_node(self, scope: Seq<Seq<char>>, x: TensorView) -> NodeView {
        linear_node(scope.push("gate_up_proj"@), x, self.d_model, (2 * self.d_ff) as usize)
    }

    /// The three nodes that the network records on `x`, the first of them at `base`.
    #[verifier::opaque]
    pub open spec fn nodes(self, base: nat, scope: Seq<Seq<char>>, x: TensorView) -> Seq<
        NodeView,
    > {
        let gate_up = self.gate_up_node(scope, x);
        let act = custom_node(
            scope,
            CustomOp::Swiglu(SwigluOp { block_n: 1024 }),
            handle(base, gate_up),
            Seq::empty(),
            None,
        );
        let down = linear_node(
            scope.push("down_proj"@),
            handle(base + 1, act),
            self.d_ff,
            self.d_model,
        );
        seq![gate_up, act, down]
    }

    /// The handle on the last of [`Self::nodes`].
    pub open spec fn output(self, base: nat, scope: Seq<Seq<char>>, x: TensorView) -> TensorView {
        handle(base + 2, self.nodes(base, scope, x).last())
    }

    /// The network records three nodes.
    pub broadcast proof fn nodes_len(self, base: nat, scope: Seq<Seq<char>>, x: TensorView)
        ensures
            #[trigger] self.nodes(base, scope, x).len() == 3,
    {
        reveal(FeedForward::nodes);
    }

    /// The network keeps every dimension but the last, which becomes `d_model`, and the
    /// element type.
    pub proof fn output_shape(self, base: nat, scope: Seq<Seq<char>>, x: TensorView)
        requires
            x.shape.len() >= 1,
        ensures
            self.output(base, scope, x).shape == x.shape.drop_last().push(Some(self.d_model)),
            self.output(base, scope, x).dtype == x.dtype,
    {
        reveal(FeedForward::nodes);
        assert(self.output(base, scope, x).shape =~= x.shape.drop_last().push(
            Some(self.d_model),
        ));
    }

    /// Every node of the network reads its input or nodes of the network before it.
    pub proof fn nodes_in_order(self, base: nat, scope: Seq<Seq<char>>, x: TensorView)
        requires
            x.node < base,
        ensures
            ordered(self.nodes(base, scope, x), base),
    {
        reveal(FeedForward::nodes);
    }

    /// The dataflow of the network: the fused projection widens the input to twice `d_ff`,
    /// the activation reads it, and the down projection reads the activation and returns
    /// to `d_model`. Nothing else is read, and the down projection is the output.
    pub proof fn dataflow(self, base: nat, scope: Seq<Seq<char>>, x: TensorView)
        requires
            2 * self.d_ff <= usize::MAX,
        ensures
            ({
                let n = self.nodes(base, scope, x);
                let out = self.output(base, scope, x);
                &&& n.len() == 3
                &&& (n[0].op matches OpView::Linear { in_features, out_features, has_bias }
                    && in_features == self.d_model && out_features == 2 * self.d_ff && !has_bias)
                &&& n[0].inputs == seq![x.node]
                &&& n[0].name == scope_name(scope.push("gate_up_proj"@))
                &&& n[1].op == OpView::Custom(CustomOp::Swiglu(SwigluOp { block_n: 1024 }))
                &&& n[1].inputs == seq![base]
                &&& n[1].name == scope_name(scope)
                &&& n[2].op == (OpView::Linear {
                    in_features: self.d_ff,
                    out_features: self.d_model,
                    has_bias: false,
                })
                &&& n[2].inputs == seq![base + 1]
                &&& n[2].name == scope_name(scope.push("down_proj"@))
                &&& forall|i: int| 0 <= i < 3 ==> (#[trigger] n[i]).dtype == x.dtype
                &&& out.node == base + 2
                &&& x.shape.len() >= 1 ==> {
                    let last = x.shape.len() - 1;
                    &&& forall|i: int|
                        0 <= i < 3 ==> (#[trigger] n[i]).shape.len() == x.shape.len()
                            && n[i].shape.take(last) == x.shape.take(last)
                    &&& n[0].shape[last] is Some && n[0].shape[last]->Some_0 == 2 * self.d_ff
                    &&& n[1].shape[last] == Some(self.d_ff)
                    &&& n[2].shape[last] == Some(self.d_model)
                }
            }),
    {
        reveal(FeedForward::nodes);
        let n = self.nodes(base, scope, x);
        assert(n[1].inputs =~= seq![base]);
        if x.shape.len() >= 1 {
            let last = x.shape.len() - 1;
            assert(n[0].shape.take(last) =~= x.shape.take(last));
            assert(n[1].shape.take(last) =~= x.shape.take(last));
            assert(n[2].shape.take(last) =~= x.shape.take(last));
        }
    }

    /// In a graph that holds the network's nodes, its output depends on its input.
    pub proof fn output_depends_on_input(
        self,
        all: Seq<NodeView>,
        base: nat,
        scope: Seq<Seq<char>>,
        x: TensorView,
    )
        requires
            2 * self.d_ff <= usize::MAX,
            holds_run(all, base, self.nodes(base, scope, x)),
        ensures
            depends(all, x.node, base + 2),
    {
        self.dataflow(base, scope, x);
        let n = self.nodes(base, scope, x);
        lemma_run_input(all, base, n, 0, 0);
        lemma_run_input(all, base, n, 1, 0);
        lemma_run_input(all, base, n, 2, 0);
        lemma_depends_trans(all, x.node, base + 0, base + 1);
        lemma_depends_trans(all, x.node, base + 1, base + 2);
    }

    /// Records the network: `[S, D]` → `[S, D]`.
    pub fn forward(&self, graph: &mut Graph, x: SymTensor) -> (t: SymTensor)
        requires
            x@.shape.len() >= 1,
            self.fits(),
        ensures
            final(graph)@ == old(graph)@.extended(
                self.nodes(old(graph)@.nodes.len(), old(graph)@.scope, x@),
            ),
            t@ == self.output(old(graph)@.nodes.len(), old(graph)@.scope, x@),
    {
        broadcast use lemma_scope_closed;

        graph.push_scope("gate_up_proj");
        let z = sym_linear(graph, x, self.d_model, 2 * self.d_ff);
        graph.pop_scope();

        let h = z.record_custom(graph, SwigluOp::custom_data(), &[], None);

        graph.push_scope("down_proj");
        let out = sym_linear(graph, h, self.d_ff, self.d_model);
        graph.pop_scope();
        proof {
            reveal(FeedForward::nodes);
            let base = old(graph)@.nodes.len();
            let scope = old(graph)@.scope;
            assert(graph@ =~= old(graph)@.extended(self.nodes(base, scope, x@)));
        }
        out
    }
}

} // verus!
