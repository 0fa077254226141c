//! The symbolic computation graph.
//!
//! Tracing a model records one [`GraphNode`] per operation, in execution order,
//! and hands back a [`SymTensor`] that stands for the result. Node names come from
//! a stack of scope segments, joined by dots.

use vstd::prelude::*;

use crate::ieee::F64Bits;
use crate::kernels::flash_attn2::{CausalFlashAttn2Op, FlashAttn2Op};
use crate::kernels::fused_add_rmsnorm::FusedAddRmsnormOp;
use crate::kernels::rope::RopeOp;
use crate::kernels::swiglu::{halved_shape, SwigluOp};
use crate::kernels::transpose_heads::{
    merged_shape, transposed_shape, MergeHeadsOp, TransposeHeadsOp,
};
use crate::layers::embedding::TokenEmbedOp;

verus! {

/// A tensor shape. `None` stands for a dimension that is known only at run time.
pub type Shape = Vec<Option<usize>>;

pub fn copy_shape(shape: &Shape) -> (out: Shape)
    ensures
        out@ == shape@,
{
    let out = shape.clone();
    assert(out@ =~= shape@);
    out
}

/// An operation that the transformer defines itself.
#[derive(Clone, Copy, Debug, PartialEq, Eq, Structural)]
pub enum CustomOp {
    TransposeHeads(TransposeHeadsOp),
    MergeHeads(MergeHeadsOp),
    Rope(RopeOp),
    FlashAttn2(FlashAttn2Op),
    CausalFlashAttn2(CausalFlashAttn2Op),
    Swiglu(SwigluOp),
    FusedAddRmsnorm(FusedAddRmsnormOp),
    TokenEmbed(TokenEmbedOp),
}

impl CustomOp {
    /// The rank that the first input must have for shape inference to succeed.
    pub open spec fn min_rank(self) -> nat {
        match self {
            CustomOp::TransposeHeads(_) => 1,
            CustomOp::MergeHeads(_) => 2,
            CustomOp::Swiglu(_) => 1,
            CustomOp::TokenEmbed(_) => 1,
            _ => 0,
        }
    }

    /// No dimension of the output overflows a word.
    pub open spec fn fits(self) -> bool {
        match self {
            CustomOp::MergeHeads(op) => op.n_heads * op.head_dim <= usize::MAX,
            _ => true,
        }
    }

    /// The output shape for a first input of shape `shape`. No other input has a say.
    pub open spec fn output_shape(self, shape: Seq<Option<usize>>) -> Seq<Option<usize>> {
        match self {
            CustomOp::TransposeHeads(op) => transposed_shape(op, shape),
            CustomOp::MergeHeads(op) => merged_shape(op, shape),
            CustomOp::Swiglu(_) => halved_shape(shape),
            CustomOp::TokenEmbed(op) => seq![shape[0], Some(op.d_model)],
            _ => shape,
        }
    }

    pub open spec fn spec_name(self) -> Seq<char> {
        match self {
            CustomOp::TransposeHeads(_) => "transpose_heads"@,
            CustomOp::MergeHeads(_) => "merge_heads"@,
            CustomOp::Rope(_) => "rope"@,
            CustomOp::FlashAttn2(_) => "flash_attn2"@,
            CustomOp::CausalFlashAttn2(_) => "causal_flash_attn2"@,
            CustomOp::Swiglu(_) => "swiglu"@,
            CustomOp::FusedAddRmsnorm(_) => "fused_add_rmsnorm"@,
            CustomOp::TokenEmbed(_) => "token_embed"@,
        }
    }

    pub fn name(&self) -> (s: &'static str)
        ensures
            s@ == self.spec_name(),
            match *self {
                CustomOp::TransposeHeads(_) => s@ == "transpose_heads"@,
                CustomOp::MergeHeads(_) => s@ == "merge_heads"@,
                CustomOp::Rope(_) => s@ == "rope"@,
                CustomOp::FlashAttn2(_) => s@ == "flash_attn2"@,
                CustomOp::CausalFlashAttn2(_) => s@ == "causal_flash_attn2"@,
                CustomOp::Swiglu(_) => s@ == "swiglu"@,
                CustomOp::FusedAddRmsnorm(_) => s@ == "fused_add_rmsnorm"@,
                CustomOp::TokenEmbed(_) => s@ == "token_embed"@,
            },
    {
        match self {
            CustomOp::TransposeHeads(op) => op.name(),
            CustomOp::MergeHeads(op) => op.name(),
            CustomOp::Rope(op) => op.name(),
            CustomOp::FlashAttn2(op) => op.name(),
            CustomOp::CausalFlashAttn2(op) => op.name(),
            CustomOp::Swiglu(op) => op.name(),
            CustomOp::FusedAddRmsnorm(op) => op.name(),
            CustomOp::TokenEmbed(op) => op.name(),
        }
    }

    pub fn infer_output_shape(&self, input_shapes: &[&Shape]) -> (out: Shape)
        requires
            input_shapes@.len() >= 1,
            input_shapes@[0]@.len() >= self.min_rank(),
            self.fits(),
        ensures
            out@ == self.output_shape(input_shapes@[0]@),
    {
        match self {
            CustomOp::TransposeHeads(op) => op.infer_output_shape(input_shapes),
            CustomOp::MergeHeads(op) => op.infer_output_shape(input_shapes),
            CustomOp::Rope(op) => op.infer_output_shape(input_shapes),
            CustomOp::FlashAttn2(op) => op.infer_output_shape(input_shapes),
            CustomOp::CausalFlashAttn2(op) => op.infer_output_shape(input_shapes),
            CustomOp::Swiglu(op) => op.infer_output_shape(input_shapes),
            CustomOp::FusedAddRmsnorm(op) => op.infer_output_shape(input_shapes),
            CustomOp::TokenEmbed(op) => op.infer_output_shape(input_shapes),
        }
    }
}

/// The element type of a tensor.
#[derive(Clone, Copy, Debug, PartialEq, Eq, Structural)]
pub enum DtypeRepr {
    Bool,
    I8,
    I16,
    I32,
    I64,
    U8,
    U16,
    U32,
    U64,
    F16,
    BF16,
    F32,
    F64,
}

/// What a graph node computes.
#[derive(Debug)]
pub enum Op {
    /// A model input.
    Input,
    /// `x · Wᵀ [+ b]` on the last dimension.
    Linear { in_features: usize, out_features: usize, has_bias: bool },
    /// RMS normalisation over the trailing axes.
    RmsNorm { normalized_shape: Vec<usize>, eps: F64Bits, affine: bool },
    /// Element-wise addition.
    Add,
    /// An operation of this crate.
    Custom(CustomOp),
}

/// The mathematical value of an [`Op`].
pub enum OpView {
    Input,
    Linear { in_features: usize, out_features: usize, has_bias: bool },
    RmsNorm { normalized_shape: Seq<usize>, eps: F64Bits, affine: bool },
    Add,
    Custom(CustomOp),
}

impl View for Op {
    type V = OpView;

    open spec fn view(&self) -> OpView {
        match *self {
            Op::Input => OpView::Input,
            Op::Linear { in_features, out_features, has_bias } => OpView::Linear {
                in_features,
                out_features,
                has_bias,
            },
            Op::RmsNorm { normalized_shape, eps, affine } => OpView::RmsNorm {
                normalized_shape: normalized_shape@,
                eps,
                affine,
            },
            Op::Add => OpView::Add,
            Op::Custom(op) => OpView::Custom(op),
        }
    }
}

/// One operation of a graph with its producers, its output and its name.
#[derive(Debug)]
pub struct GraphNode {
    pub op: Op,
    /// Indices of the producers.
    pub inputs: Vec<usize>,
    pub dtype: DtypeRepr,
    pub shape: Shape,
    /// The dotted scope path at recording time, if there was a scope.
    pub name: Option<String>,
}

/// The mathematical value of a [`GraphNode`].
pub struct NodeView {
    pub op: OpView,
    pub inputs: Seq<nat>,
    pub dtype: DtypeRepr,
    pub shape: Seq<Option<usize>>,
    pub name: Option<Seq<char>>,
}

impl View for GraphNode {
    type V = NodeView;

    open spec fn view(&self) -> NodeView {
        NodeView {
            op: self.op@,
            inputs: self.inputs@.map_values(|i: usize| i as nat),
            dtype: self.dtype,
            shape: self.shape@,
            name: match self.name {
                Some(s) => Some(s@),
                None => None,
            },
        }
    }
}

/// The segments joined by dots.
pub open spec fn dotted(segments: Seq<Seq<char>>) -> Seq<char>
    decreases segments.len(),
{
    if segments.len() == 0 {
        Seq::empty()
    } else if segments.len() == 1 {
        segments[0]
    } else {
        dotted(segments.drop_last()) + "."@ + segments.last()
    }
}

/// The name of a node recorded inside the scopes `segments`.
pub open spec fn scope_name(segments: Seq<Seq<char>>) -> Option<Seq<char>> {
    if segments.len() == 0 {
        None
    } else {
        Some(dotted(segments))
    }
}

/// The traced graph: nodes in the order they were recorded, and the open scopes.
#[derive(Debug)]
pub struct Graph {
    pub nodes: Vec<GraphNode>,
    pub scope: Vec<String>,
}

/// The mathematical value of a [`Graph`].
#[verifier::ext_equal]
pub struct GraphView {
    pub nodes: Seq<NodeView>,
    pub scope: Seq<Seq<char>>,
}

impl View for Graph {
    type V = GraphView;

    open spec fn view(&self) -> GraphView {
        GraphView {
            nodes: self.nodes@.map_values(|n: GraphNode| n@),
            scope: self.scope@.map_values(|s: String| s@),
        }
    }
}

impl GraphView {
    /// Producers come before their consumers.
    pub open spec fn wf(self) -> bool {
        ordered(self.nodes, 0)
    }

    /// `t` stands for a node of this graph.
    pub open spec fn has(self, t: TensorView) -> bool {
        &&& t.node < self.nodes.len()
        &&& self.nodes[t.node as int].dtype == t.dtype
        &&& self.nodes[t.node as int].shape == t.shape
    }

    /// This graph with `nodes` appended.
    pub open spec fn extended(self, nodes: Seq<NodeView>) -> GraphView {
        GraphView { nodes: self.nodes + nodes, scope: self.scope }
    }
}

/// Each of `nodes`, the first of them at index `base` of a graph, reads nodes that
/// come before it.
pub open spec fn ordered(nodes: Seq<NodeView>, base: nat) -> bool {
    forall|i: int, j: int|
        0 <= i < nodes.len() && 0 <= j < nodes[i].inputs.len() ==> #[trigger] nodes[i].inputs[j]
            < base + i
}

/// Runs of nodes that are in order one after the other are in order.
pub broadcast proof fn lemma_ordered(a: Seq<NodeView>, b: Seq<NodeView>, base: nat)
    requires
        ordered(a, base),
        ordered(b, base + a.len()),
    ensures
        #[trigger] ordered(a + b, base),
{
    assert forall|i: int, j: int|
        0 <= i < (a + b).len() && 0 <= j < (a + b)[i].inputs.len() implies #[trigger] (a
        + b)[i].inputs[j] < base + i by {
        if i < a.len() {
            assert(a[i].inputs[j] < base + i);
        } else {
            assert(b[i - a.len()].inputs[j] < base + a.len() + (i - a.len()));
        }
    }
}

/// Appending nodes in order keeps the order of a graph.
pub proof fn lemma_extended_in_order(g: GraphView, nodes: Seq<NodeView>)
    requires
        g.wf(),
        ordered(nodes, g.nodes.len()),
    ensures
        g.extended(nodes).wf(),
{
    lemma_ordered(g.nodes, nodes, 0);
}

/// Appending twice is appending the concatenation.
pub broadcast proof fn lemma_extended(g: GraphView, a: Seq<NodeView>, b: Seq<NodeView>)
    ensures
        #[trigger] g.extended(a).extended(b) == g.extended(a + b),
{
    assert(g.nodes + a + b =~= g.nodes + (a + b));
}

/// Closing a scope undoes opening it.
pub broadcast proof fn lemma_scope_closed(scope: Seq<Seq<char>>, segment: Seq<char>)
    ensures
        #[trigger] scope.push(segment).drop_last() == scope,
{
    assert(scope.push(segment).drop_last() =~= scope);
}

impl Graph {
    /// An empty graph.
    pub fn new() -> (g: Self)
        ensures
            g@ == (GraphView { nodes: Seq::empty(), scope: Seq::empty() }),
    {
        let g = Graph { nodes: Vec::new(), scope: Vec::new() };
        assert(g@.nodes =~= Seq::empty());
        assert(g@.scope =~= Seq::empty());
        g
    }

    /// Opens a scope: nodes recorded from here on carry the segment in their name.
    pub fn push_scope(&mut self, segment: &str)
        ensures
            final(self)@.nodes == old(self)@.nodes,
            final(self)@.scope == old(self)@.scope.push(segment@),
    {
        self.scope.push(segment.to_string());
        assert(self@.nodes =~= old(self)@.nodes);
        assert(self@.scope =~= old(self)@.scope.push(segment@));
    }

    /// Closes the innermost scope; without one, nothing happens.
    pub fn pop_scope(&mut self)
        ensures
            final(self)@.nodes == old(self)@.nodes,
            final(self)@.scope == (if old(self)@.scope.len() == 0 {
                old(self)@.scope
            } else {
                old(self)@.scope.drop_last()
            }),
    {
        let _ = self.scope.pop();
        assert(self@.nodes =~= old(self)@.nodes);
    }

    /// The dotted path of the open scopes.
    pub fn current_scope(&self) -> (name: Option<String>)
        ensures
            match name {
                Some(s) => scope_name(self@.scope) == Some(s@),
                None => scope_name(self@.scope) is None,
            },
    {
        if self.scope.len() == 0 {
            return None;
        }
        let mut path: String = self.scope[0].clone();
        let mut i: usize = 1;
        while i < self.scope.len()
            invariant
                1 <= i <= self.scope@.len(),
                path@ == dotted(self@.scope.take(i as int)),
            decreases self.scope@.len() - i,
        {
            path.append(".");
            path.append(self.scope[i].as_str());
            assert(self@.scope.take(i + 1).drop_last() =~= self@.scope.take(i as int));
            i += 1;
        }
        assert(self@.scope.take(i as int) =~= self@.scope);
        Some(path)
    }

    /// Appends a node and returns its index.
    pub fn add_node(&mut self, op: Op, inputs: Vec<usize>, dtype: DtypeRepr, shape: Shape) -> (id:
        usize)
        ensures
            id == old(self)@.nodes.len(),
            final(self)@ == old(self)@.extended(
                seq![
                    NodeView {
                        op: op@,
                        inputs: inputs@.map_values(|i: usize| i as nat),
                        dtype,
                        shape: shape@,
                        name: scope_name(old(self)@.scope),
                    },
                ],
            ),
    {
        let id: usize = self.nodes.len();
        let name: Option<String> = self.current_scope();
        let ghost before = self@;
        self.nodes.push(GraphNode { op, inputs, dtype, shape, name });
        assert(self@.nodes =~= before.nodes.push(self.nodes@.last()@));
        assert(self@.nodes =~= before.nodes + seq![self.nodes@.last()@]);
        assert(self@.scope =~= before.scope);
        id
    }
}

/// A handle on a node of a graph.
#[derive(Debug)]
pub struct SymTensor {
    pub node_id: usize,
    pub dtype: DtypeRepr,
    pub shape: Shape,
}

/// The mathematical value of a [`SymTensor`].
pub struct TensorView {
    pub node: nat,
    pub dtype: DtypeRepr,
    pub shape: Seq<Option<usize>>,
}

impl View for SymTensor {
    type V = TensorView;

    open spec fn view(&self) -> TensorView {
        TensorView { node: self.node_id as nat, dtype: self.dtype, shape: self.shape@ }
    }
}

impl Clone for SymTensor {
    fn clone(&self) -> (t: Self)
        ensures
            t@ == self@,
    {
        SymTensor { node_id: self.node_id, dtype: self.dtype, shape: copy_shape(&self.shape) }
    }
}

/// The node that a custom op on `x` and `others` records.
pub open spec fn custom_node(
    scope: Seq<Seq<char>>,
    op: CustomOp,
    x: TensorView,
    others: Seq<nat>,
    dtype: Option<DtypeRepr>,
) -> NodeView {
    NodeView {
        op: OpView::Custom(op),
        inputs: seq![x.node] + others,
        dtype: match dtype {
            Some(d) => d,
            None => x.dtype,
        },
        shape: op.output_shape(x.shape),
        name: scope_name(scope),
    }
}

/// The handle on node `id` when it is `node`.
pub open spec fn handle(id: nat, node: NodeView) -> TensorView {
    TensorView { node: id, dtype: node.dtype, shape: node.shape }
}

impl SymTensor {
    /// Records a model input.
    pub fn input(graph: &mut Graph, dtype: DtypeRepr, shape: Shape) -> (t: Self)
        ensures
            final(graph)@ == old(graph)@.extended(
                seq![
                    NodeView {
                        op: OpView::Input,
                        inputs: Seq::empty(),
                        dtype,
                        shape: shape@,
                        name: scope_name(old(graph)@.scope),
                    },
                ],
            ),
            t@ == (TensorView { node: old(graph)@.nodes.len(), dtype, shape: shape@ }),
    {
        let kept: Shape = copy_shape(&shape);
        let inputs: Vec<usize> = Vec::new();
        assert(inputs@.map_values(|i: usize| i as nat) =~= Seq::<nat>::empty());
        let node_id: usize = graph.add_node(Op::Input, inputs, dtype, shape);
        SymTensor { node_id, dtype, shape: kept }
    }

    /// Number of dimensions.
    pub fn rank(&self) -> (n: usize)
        ensures
            n == self@.shape.len(),
    {
        self.shape.len()
    }

    /// Records a custom op. `self` is the first input, `other_inputs` the rest; the
    /// output has the element type `dtype`, or that of `self`.
    pub fn record_custom(
        &self,
        graph: &mut Graph,
        data: CustomOp,
        other_inputs: &[&SymTensor],
        dtype: Option<DtypeRepr>,
    ) -> (t: Self)
        requires
            self@.shape.len() >= data.min_rank(),
            data.fits(),
        ensures
            final(graph)@ == old(graph)@.extended(
                seq![
                    custom_node(
                        old(graph)@.scope,
                        data,
                        self@,
                        other_inputs@.map_values(|t: &SymTensor| t@.node),
                        dtype,
                    ),
                ],
            ),
            t@ == handle(
                old(graph)@.nodes.len(),
                custom_node(
                    old(graph)@.scope,
                    data,
                    self@,
                    other_inputs@.map_values(|t: &SymTensor| t@.node),
                    dtype,
                ),
            ),
    {
        let mut shapes: Vec<&Shape> = Vec::new();
        let mut input_ids: Vec<usize> = Vec::new();
        shapes.push(&self.shape);
        input_ids.push(self.node_id);
        let mut i: usize = 0;
        while i < other_inputs.len()
            invariant
                i <= other_inputs@.len(),
                shapes@.len() == i + 1,
                shapes@[0]@ == self@.shape,
                input_ids@.len() == i + 1,
                input_ids@[0] == self.node_id,
                forall|k: int| 0 <= k < i ==> input_ids@[k + 1] == #[trigger] other_inputs@[k].node_id,
            decreases other_inputs@.len() - i,
        {
            shapes.push(&other_inputs[i].shape);
            input_ids.push(other_inputs[i].node_id);
            i += 1;
        }
        let shape: Shape = data.infer_output_shape(shapes.as_slice());
        let out_dtype: DtypeRepr = match dtype {
            Some(d) => d,
            None => self.dtype,
        };
        assert(input_ids@.map_values(|i: usize| i as nat) =~= seq![self@.node]
            + other_inputs@.map_values(|t: &SymTensor| t@.node));
        let kept: Shape = copy_shape(&shape);
        let node_id: usize = graph.add_node(Op::Custom(data), input_ids, out_dtype, shape);
        SymTensor { node_id, dtype: out_dtype, shape: kept }
    }
}

// ---------------------------------------------------------------------------
// Laws
// ---------------------------------------------------------------------------
/// A name is the open scopes joined by dots: none without a scope, the segment itself
/// for one, and one more segment behind a dot for each scope that is opened.
pub proof fn names_are_dotted_paths(scope: Seq<Seq<char>>, segment: Seq<char>)
    ensures
        scope_name(Seq::empty()) is None,
        scope_name(seq![segment]) == Some(segment),
        scope.len() > 0 ==> scope_name(scope) is Some && scope_name(scope.push(segment)) == Some(
            scope_name(scope)->Some_0 + "."@ + segment,
        ),
{
    let inner = scope.push(segment);
    assert(inner.drop_last() =~= scope);
    assert(inner.last() == segment);
}

/// Recording appends: earlier nodes stay where they are, the new ones follow, and the
/// open scopes stay open.
pub proof fn recording_appends(g: GraphView, nodes: Seq<NodeView>)
    ensures
        g.extended(nodes).nodes.len() == g.nodes.len() + nodes.len(),
        forall|i: int|
            0 <= i < g.nodes.len() ==> #[trigger] g.extended(nodes).nodes[i] == g.nodes[i],
        forall|i: int|
            0 <= i < nodes.len() ==> g.extended(nodes).nodes[g.nodes.len() + i] == #[trigger] nodes[i],
        g.extended(nodes).scope == g.scope,
{
}

/// A custom node carries its op, reads its first input and then the others, has the
/// element type asked for or that of its first input, and is named by the open scopes.
/// Its handle stands for it.
pub proof fn custom_nodes_read_their_inputs(
    scope: Seq<Seq<char>>,
    op: CustomOp,
    x: TensorView,
    others: Seq<nat>,
    dtype: Option<DtypeRepr>,
    id: nat,
)
    ensures
        ({
            let n = custom_node(scope, op, x, others, dtype);
            &&& n.op == OpView::Custom(op)
            &&& n.inputs.len() == 1 + others.len()
            &&& n.inputs[0] == x.node
            &&& forall|i: int| 0 <= i < others.len() ==> n.inputs[i + 1] == #[trigger] others[i]
            &&& dtype is None ==> n.dtype == x.dtype
            &&& dtype is Some ==> n.dtype == dtype->Some_0
            &&& n.shape == op.output_shape(x.shape)
            &&& n.name == scope_name(scope)
            &&& handle(id, n).node == id
            &&& handle(id, n).dtype == n.dtype
            &&& handle(id, n).shape == n.shape
        }),
{
}

/// Shapes of custom ops: splitting heads turns `[s, ..]` into `[n_heads, s, head_dim]`,
/// merging turns `[h, s, ..]` into `[s, n_heads · head_dim]`, the gated activation halves
/// the last dimension, a lookup turns `[s, ..]` into `[s, d_model]`, and the others keep
/// the shape. A dynamic dimension stays dynamic. The first input has the dimensions that
/// are looked at, and merged heads fit a word.
pub proof fn custom_shapes(op: CustomOp, shape: Seq<Option<usize>>)
    ensures
        match op {
            CustomOp::TransposeHeads(t) => shape.len() >= 1 ==> op.output_shape(shape) == seq![
                Some(t.n_heads),
                shape[0],
                Some(t.head_dim),
            ],
            CustomOp::MergeHeads(t) => shape.len() >= 2 && t.n_heads * t.head_dim <= usize::MAX
                ==> {
                let out = op.output_shape(shape);
                &&& out.len() == 2
                &&& out[0] == shape[1]
                &&& out[1] is Some
                &&& out[1]->Some_0 == t.n_heads * t.head_dim
            },
            CustomOp::Swiglu(_) => shape.len() >= 1 ==> {
                let out = op.output_shape(shape);
                let last = shape.len() - 1;
                &&& out.len() == shape.len()
                &&& forall|i: int| 0 <= i < last ==> out[i] == #[trigger] shape[i]
                &&& shape[last] is None ==> out[last] is None
                &&& shape[last] is Some ==> out[last] is Some && 2 * out[last]->Some_0
                    <= shape[last]->Some_0 < 2 * out[last]->Some_0 + 2
            },
            CustomOp::TokenEmbed(t) => shape.len() >= 1 ==> op.output_shape(shape) == seq![
                shape[0],
                Some(t.d_model),
            ],
            _ => op.output_shape(shape) == shape,
        },
        op.min_rank() == (match op {
            CustomOp::MergeHeads(_) => 2,
            CustomOp::TransposeHeads(_) | CustomOp::Swiglu(_) | CustomOp::TokenEmbed(_) => 1,
            _ => 0nat,
        }),
        op.fits() <==> (op matches CustomOp::MergeHeads(t) ==> t.n_heads * t.head_dim
            <= usize::MAX),
{
    match op {
        CustomOp::TransposeHeads(t) => {
            assert(op.output_shape(shape) =~= seq![Some(t.n_heads), shape[0], Some(t.head_dim)]);
        },
        CustomOp::TokenEmbed(t) => {
            assert(op.output_shape(shape) =~= seq![shape[0], Some(t.d_model)]);
        },
        _ => {},
    }
}

/// The mathematical values of graph, node and handle show every field as it is.
pub proof fn views_show_the_fields(g: Graph, n: GraphNode, t: SymTensor)
    ensures
        g@.nodes.len() == g.nodes@.len(),
        forall|i: int| 0 <= i < g.nodes@.len() ==> g@.nodes[i] == (#[trigger] g.nodes@[i])@,
        g@.scope.len() == g.scope@.len(),
        forall|i: int| 0 <= i < g.scope@.len() ==> g@.scope[i] == (#[trigger] g.scope@[i])@,
        match n.op {
            Op::Input => n@.op == OpView::Input,
            Op::Linear { in_features, out_features, has_bias } => n@.op == (OpView::Linear {
                in_features,
                out_features,
                has_bias,
            }),
            Op::RmsNorm { normalized_shape, eps, affine } => n@.op == (OpView::RmsNorm {
                normalized_shape: normalized_shape@,
                eps,
                affine,
            }),
            Op::Add => n@.op == OpView::Add,
            Op::Custom(op) => n@.op == OpView::Custom(op),
        },
        n@.inputs.len() == n.inputs@.len(),
        forall|i: int| 0 <= i < n.inputs@.len() ==> n@.inputs[i] == #[trigger] n.inputs@[i],
        n@.dtype == n.dtype,
        n@.shape == n.shape@,
        n.name is None <==> n@.name is None,
        n.name matches Some(s) ==> n@.name == Some(s@),
        t@.node == t.node_id,
        t@.dtype == t.dtype,
        t@.shape == t.shape@,
{
}

/// `all` holds `nodes`, the first of them at `base`.
pub open spec fn holds_run(all: Seq<NodeView>, base: nat, nodes: Seq<NodeView>) -> bool {
    &&& base + nodes.len() <= all.len()
    &&& forall|i: int| 0 <= i < nodes.len() ==> all[base + i] == #[trigger] nodes[i]
}

/// Node `b` has node `a` among its inputs.
pub open spec fn reads(nodes: Seq<NodeView>, b: nat, a: nat) -> bool {
    b < nodes.len() && nodes[b as int].inputs.contains(a)
}

/// Every step of `path` goes from a node to one that reads it.
pub open spec fn is_path(nodes: Seq<NodeView>, path: Seq<nat>) -> bool {
    &&& path.len() > 0
    &&& forall|i: int| 0 < i < path.len() ==> reads(nodes, #[trigger] path[i], path[i - 1])
}

/// Node `b` depends on node `a`: a path leads from `a` to `b`.
pub open spec fn depends(nodes: Seq<NodeView>, a: nat, b: nat) -> bool {
    exists|path: Seq<nat>| #[trigger] is_path(nodes, path) && path.first() == a && path.last() == b
}

/// A node of a run depends on its inputs.
pub proof fn lemma_run_input(all: Seq<NodeView>, base: nat, nodes: Seq<NodeView>, i: nat, k: int)
    requires
        holds_run(all, base, nodes),
        i < nodes.len(),
        0 <= k < nodes[i as int].inputs.len(),
    ensures
        depends(all, nodes[i as int].inputs[k], base + i),
{
    let a = nodes[i as int].inputs[k];
    let path = seq![a, base + i];
    assert(all[base + i as int] == nodes[i as int]);
    assert(all[base + i as int].inputs[k] == a);
    assert(is_path(all, path));
    assert(path.first() == a && path.last() == base + i);
}

/// Part of a run is a run.
pub proof fn lemma_part_of_run(
    all: Seq<NodeView>,
    base: nat,
    nodes: Seq<NodeView>,
    at: nat,
    part: Seq<NodeView>,
)
    requires
        holds_run(all, base, nodes),
        at + part.len() <= nodes.len(),
        nodes.subrange(at as int, at + part.len() as int) == part,
    ensures
        holds_run(all, base + at, part),
{
    assert forall|i: int| 0 <= i < part.len() implies all[base + at + i] == #[trigger] part[i] by {
        assert(nodes[at + i] == part[i]);
        assert(all[base + (at + i)] == nodes[at + i]);
    }
}

/// Dependence is transitive.
pub proof fn lemma_depends_trans(nodes: Seq<NodeView>, a: nat, b: nat, c: nat)
    requires
        depends(nodes, a, b),
        depends(nodes, b, c),
    ensures
        depends(nodes, a, c),
{
    let p = choose|p: Seq<nat>|
        #[trigger] is_path(nodes, p) && p.first() == a && p.last() == b;
    let q = choose|q: Seq<nat>|
        #[trigger] is_path(nodes, q) && q.first() == b && q.last() == c;
    let path = p + q.drop_first();
    assert forall|i: int| 0 < i < path.len() implies reads(nodes, #[trigger] path[i], path[i - 1]) by {
        if i < p.len() {
            assert(reads(nodes, p[i], p[i - 1]));
        } else {
            let j = i - p.len() + 1;
            assert(reads(nodes, q[j], q[j - 1]));
        }
    }
    assert(is_path(nodes, path));
    assert(path.first() == a && path.last() == c);
}

} // verus!
