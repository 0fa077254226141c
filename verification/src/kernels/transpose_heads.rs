//! Layout transposition between `[S, D]` and `[H, S, HEAD_DIM]` formats.
//!
//! Flash Attention 2 and RoPE kernels consume `[BH, N_CTX, HEAD_DIM]` layout
//! while the rest of the transformer uses `[S, D]` (where `D = H * HEAD_DIM`).
//!
//! - **TransposeHeadsOp**: `[S, D]` → `[H, S, HEAD_DIM]`
//! - **MergeHeadsOp**:     `[H, S, HEAD_DIM]` → `[S, D]`
//!
//! The backward of each op is the other op (they are mutual inverses).
//!
//! Grid: `(S, H, 1)` — one block per `(sequence-position, head)` pair.

use vstd::prelude::*;

use crate::cast::{i32_to_usize, low_i32, low_u32, sign_extended, to_i32, to_u32};
use crate::graph::{CustomOp, Shape};
use crate::kernels::index::{
    lemma_offset3_bounds, lemma_offset3_covers, lemma_offset3_decodes, lemma_row_offset, offset3,
};
use crate::kernels::launch::{block_dim, Dim3, KernelArg, KernelId, Lowered, RuntimeOp, Slot};
use crate::kernels::tile::{at, with_run, Expr, Tile, Trace, TraceView};

verus! {

// ---------------------------------------------------------------------------
// Kernels
// ---------------------------------------------------------------------------
/// Position `(s, h)` is a block of the grid `(seq_len, n_heads, 1)`, and the tensor
/// has no more cells than an offset can name.
pub open spec fn heads_launch(s: i32, h: i32, head_dim: i32, seq_len: i32, n_heads: i32) -> bool {
    &&& 0 <= s < seq_len
    &&& 0 <= h < n_heads
    &&& 0 < head_dim
    &&& seq_len * n_heads * head_dim <= i32::MAX
}

/// What block `(s, h)` of [`transpose_heads`] stores: buffer 1 gets row `[h, s]` in
/// head-major layout from row `[s, h]` of buffer 0 in sequence-major layout.
pub open spec fn transposed_cells(
    s: int,
    h: int,
    head_dim: int,
    seq_len: int,
    n_heads: int,
) -> Map<(int, int), Expr> {
    with_run(
        Map::empty(),
        1,
        offset3(h, s, 0, seq_len, head_dim),
        Seq::new(head_dim as nat, |d: int| at(0, offset3(s, h, d, n_heads, head_dim))),
    )
}

/// What block `(s, h)` of [`merge_heads`] stores: buffer 1 gets row `[s, h]` in
/// sequence-major layout from row `[h, s]` of buffer 0 in head-major layout.
pub open spec fn merged_cells(
    s: int,
    h: int,
    head_dim: int,
    seq_len: int,
    n_heads: int,
) -> Map<(int, int), Expr> {
    with_run(
        Map::empty(),
        1,
        offset3(s, h, 0, n_heads, head_dim),
        Seq::new(head_dim as nat, |d: int| at(0, offset3(h, s, d, seq_len, head_dim))),
    )
}

/// The two row offsets of a block fit.
proof fn lemma_heads_launch(s: i32, h: i32, head_dim: i32, seq_len: i32, n_heads: i32)
    requires
        heads_launch(s, h, head_dim, seq_len, n_heads),
    ensures
        0 <= n_heads * head_dim <= i32::MAX,
        0 <= s * (n_heads * head_dim) <= i32::MAX,
        0 <= h * head_dim <= i32::MAX,
        0 <= h * seq_len <= i32::MAX,
        0 <= h * seq_len * head_dim <= i32::MAX,
        0 <= s * head_dim <= i32::MAX,
        s * (n_heads * head_dim) + h * head_dim == offset3(
            s as int,
            h as int,
            0,
            n_heads as int,
            head_dim as int,
        ),
        h * seq_len * head_dim + s * head_dim == offset3(
            h as int,
            s as int,
            0,
            seq_len as int,
            head_dim as int,
        ),
        offset3(s as int, h as int, 0, n_heads as int, head_dim as int) + head_dim <= i32::MAX,
        offset3(h as int, s as int, 0, seq_len as int, head_dim as int) + head_dim <= i32::MAX,
{
    let (s, h, c) = (s as int, h as int, head_dim as int);
    let (es, eh) = (seq_len as int, n_heads as int);
    lemma_offset3_bounds(s, h, c, es, eh, c);
    lemma_offset3_bounds(h, s, c, eh, es, c);
    lemma_row_offset(s, h, eh, c);
    lemma_row_offset(h, s, es, c);
    assert(eh * es * c == es * eh * c) by (nonlinear_arith);
    assert(0 <= s * (eh * c) && 0 <= h * c && 0 <= h * es * c && 0 <= s * c && 0 <= h * es && 0
        <= eh * c) by (nonlinear_arith)
        requires
            0 <= s,
            0 <= h,
            0 < c,
            0 <= es,
            0 <= eh,
    ;
    assert(h * es <= h * es * c) by (nonlinear_arith)
        requires
            0 <= h * es,
            0 < c,
    ;
    assert(eh * c <= es * eh * c) by (nonlinear_arith)
        requires
            0 <= eh * c,
            1 <= es,
    ;
}

/// `[S, D]` → `[H, S, HEAD_DIM]` (split heads to front), one block.
///
/// Arguments: `src` (0), `dst` (1), `seq_len` (2), `n_heads` (3).
pub fn transpose_heads(pid_s: i32, pid_h: i32, head_dim: i32, seq_len: i32, n_heads: i32) -> (t:
    Trace)
    requires
        heads_launch(pid_s, pid_h, head_dim, seq_len, n_heads),
    ensures
        t@ == (TraceView {
            stores: transposed_cells(
                pid_s as int,
                pid_h as int,
                head_dim as int,
                seq_len as int,
                n_heads as int,
            ),
            adds: Map::empty(),
        }),
{
    proof {
        lemma_heads_launch(pid_s, pid_h, head_dim, seq_len, n_heads);
    }
    let d_model: i32 = n_heads * head_dim;
    // src layout: element [s, h, d] is at s*D + h*HEAD_DIM + d
    let src_base: i32 = pid_s * d_model + pid_h * head_dim;
    // dst layout: element [h, s, d] is at h*S*HEAD_DIM + s*HEAD_DIM + d
    let dst_base: i32 = pid_h * seq_len * head_dim + pid_s * head_dim;

    let mut t = Trace::new();
    let val: Tile = t.load_row(0, src_base, head_dim);
    assert(val@ =~= Seq::new(
        head_dim as nat,
        |d: int| at(0, offset3(pid_s as int, pid_h as int, d, n_heads as int, head_dim as int)),
    ));
    t.store_row(1, dst_base, &val);
    t
}

/// `[H, S, HEAD_DIM]` → `[S, D]` (merge heads back, inverse of
/// [`transpose_heads`]), one block.
///
/// Arguments: `src` (0), `dst` (1), `seq_len` (2), `n_heads` (3).
pub fn merge_heads(pid_s: i32, pid_h: i32, head_dim: i32, seq_len: i32, n_heads: i32) -> (t: Trace)
    requires
        heads_launch(pid_s, pid_h, head_dim, seq_len, n_heads),
    ensures
        t@ == (TraceView {
            stores: merged_cells(
                pid_s as int,
                pid_h as int,
                head_dim as int,
                seq_len as int,
                n_heads as int,
            ),
            adds: Map::empty(),
        }),
{
    proof {
        lemma_heads_launch(pid_s, pid_h, head_dim, seq_len, n_heads);
    }
    let d_model: i32 = n_heads * head_dim;
    let src_base: i32 = pid_h * seq_len * head_dim + pid_s * head_dim;
    let dst_base: i32 = pid_s * d_model + pid_h * head_dim;

    let mut t = Trace::new();
    let val: Tile = t.load_row(0, src_base, head_dim);
    assert(val@ =~= Seq::new(
        head_dim as nat,
        |d: int| at(0, offset3(pid_h as int, pid_s as int, d, seq_len as int, head_dim as int)),
    ));
    t.store_row(1, dst_base, &val);
    t
}

/// The cell that a transposing launch copies to cell `o`.
pub open spec fn transpose_source(o: int, head_dim: int, seq_len: int, n_heads: int) -> int {
    offset3(o / head_dim % seq_len, o / head_dim / seq_len, o % head_dim, n_heads, head_dim)
}

/// The cell that a merging launch copies to cell `o`.
pub open spec fn merge_source(o: int, head_dim: int, seq_len: int, n_heads: int) -> int {
    offset3(o / head_dim % n_heads, o / head_dim / n_heads, o % head_dim, seq_len, head_dim)
}

/// A transposing launch sets every cell of the output: cell `o` is set by block
/// `(s, h)` exactly where `[h, s, d]` is its element, to the cell
/// [`transpose_source`] of the input.
pub proof fn transpose_sets_every_cell(
    o: int,
    s: int,
    h: int,
    head_dim: int,
    seq_len: int,
    n_heads: int,
)
    requires
        0 < head_dim,
        0 <= s < seq_len,
        0 <= h < n_heads,
        0 <= o < seq_len * n_heads * head_dim,
    ensures
        transposed_cells(s, h, head_dim, seq_len, n_heads).dom().contains((1, o)) <==> (s == o
            / head_dim % seq_len && h == o / head_dim / seq_len),
        0 <= o / head_dim % seq_len < seq_len,
        0 <= o / head_dim / seq_len < n_heads,
        transposed_cells(s, h, head_dim, seq_len, n_heads).dom().contains((1, o))
            ==> transposed_cells(s, h, head_dim, seq_len, n_heads)[(1, o)] == at(
            0,
            transpose_source(o, head_dim, seq_len, n_heads),
        ),
{
    assert(n_heads * seq_len * head_dim == seq_len * n_heads * head_dim) by (nonlinear_arith);
    lemma_offset3_covers(o, n_heads, seq_len, head_dim);
    let base = offset3(h, s, 0, seq_len, head_dim);
    if base <= o < base + head_dim {
        lemma_offset3_decodes(h, s, o - base, seq_len, head_dim);
    }
}

/// A merging launch sets every cell of the output: cell `o` is set by block
/// `(s, h)` exactly where `[s, h, d]` is its element, to the cell
/// [`merge_source`] of the input.
pub proof fn merge_sets_every_cell(
    o: int,
    s: int,
    h: int,
    head_dim: int,
    seq_len: int,
    n_heads: int,
)
    requires
        0 < head_dim,
        0 <= s < seq_len,
        0 <= h < n_heads,
        0 <= o < seq_len * n_heads * head_dim,
    ensures
        merged_cells(s, h, head_dim, seq_len, n_heads).dom().contains((1, o)) <==> (h == o
            / head_dim % n_heads && s == o / head_dim / n_heads),
        0 <= o / head_dim % n_heads < n_heads,
        0 <= o / head_dim / n_heads < seq_len,
        merged_cells(s, h, head_dim, seq_len, n_heads).dom().contains((1, o)) ==> merged_cells(
            s,
            h,
            head_dim,
            seq_len,
            n_heads,
        )[(1, o)] == at(0, merge_source(o, head_dim, seq_len, n_heads)),
{
    lemma_offset3_covers(o, seq_len, n_heads, head_dim);
    let base = offset3(s, h, 0, n_heads, head_dim);
    if base <= o < base + head_dim {
        lemma_offset3_decodes(s, h, o - base, n_heads, head_dim);
    }
}

/// Transposing and merging are mutual inverses: the cell that one copies from is the
/// cell that the other copies to.
pub proof fn transpose_and_merge_are_inverse(o: int, head_dim: int, seq_len: int, n_heads: int)
    requires
        0 < head_dim,
        0 < seq_len,
        0 < n_heads,
        0 <= o < seq_len * n_heads * head_dim,
    ensures
        0 <= transpose_source(o, head_dim, seq_len, n_heads) < seq_len * n_heads * head_dim,
        0 <= merge_source(o, head_dim, seq_len, n_heads) < seq_len * n_heads * head_dim,
        merge_source(transpose_source(o, head_dim, seq_len, n_heads), head_dim, seq_len, n_heads)
            == o,
        transpose_source(merge_source(o, head_dim, seq_len, n_heads), head_dim, seq_len, n_heads)
            == o,
{
    assert(n_heads * seq_len * head_dim == seq_len * n_heads * head_dim) by (nonlinear_arith);
    lemma_offset3_covers(o, n_heads, seq_len, head_dim);
    lemma_offset3_covers(o, seq_len, n_heads, head_dim);
    let d = o % head_dim;
    let (s1, h1) = (o / head_dim % seq_len, o / head_dim / seq_len);
    lemma_offset3_bounds(s1, h1, d, seq_len, n_heads, head_dim);
    lemma_offset3_decodes(s1, h1, d, n_heads, head_dim);
    let (h2, s2) = (o / head_dim % n_heads, o / head_dim / n_heads);
    lemma_offset3_bounds(h2, s2, d, n_heads, seq_len, head_dim);
    lemma_offset3_decodes(h2, s2, d, seq_len, head_dim);
}

// ---------------------------------------------------------------------------
// TransposeHeadsOp
// ---------------------------------------------------------------------------

/// Runtime op of the `[S, D]` → `[H, S, HEAD_DIM]` kernel.
#[derive(Clone, Copy, Debug, PartialEq, Eq, Structural)]
pub struct TransposeHeads {
    pub head_dim: i32,
}

impl TransposeHeads {
    pub fn new(head_dim: i32) -> (r: Self)
        ensures
            r == (TransposeHeads { head_dim }),
    {
        TransposeHeads { head_dim }
    }

    pub fn n_activation_inputs(&self) -> (n: usize)
        ensures
            n == 1,
    {
        1
    }

    /// No parameter buffers.
    pub fn param_shapes(&self) -> (shapes: Vec<Vec<usize>>)
        ensures
            shapes@.len() == 0,
    {
        Vec::new()
    }

    /// Arguments `(src, dst, seq_len, n_heads)`; `output_shape` is `[H, S, HEAD_DIM]`.
    pub fn pack_args(&self, output_shape: &[usize]) -> (args: Vec<KernelArg>)
        requires
            output_shape@.len() >= 2,
        ensures
            args@ == seq![
                KernelArg::Ptr(Slot::Input(0)),
                KernelArg::Ptr(Slot::Output),
                KernelArg::I32(low_i32(output_shape@[1] as int) as i32),
                KernelArg::I32(low_i32(output_shape@[0] as int) as i32),
            ],
    {
        let seq_len: i32 = to_i32(output_shape[1]);
        let n_heads: i32 = to_i32(output_shape[0]);
        vec![
            KernelArg::Ptr(Slot::Input(0)),
            KernelArg::Ptr(Slot::Output),
            KernelArg::I32(seq_len),
            KernelArg::I32(n_heads),
        ]
    }

    pub fn block(&self) -> (b: Dim3)
        ensures
            b == block_dim(),
    {
        Dim3 { x: 128, y: 1, z: 1 }
    }

    /// One block per `(sequence position, head)` pair.
    pub fn grid(&self, output_shape: &[usize]) -> (g: Dim3)
        requires
            output_shape@.len() >= 2,
        ensures
            g.x == low_u32(output_shape@[1] as int),
            g.y == low_u32(output_shape@[0] as int),
            g.z == 1,
    {
        Dim3 { x: to_u32(output_shape[1]), y: to_u32(output_shape[0]), z: 1 }
    }

    pub fn has_backward(&self) -> (b: bool)
        ensures
            b,
    {
        true
    }

    /// The backward of a transpose is a merge of the incoming gradient.
    pub fn pack_backward_args(&self, output_shape: &[usize]) -> (args: Vec<KernelArg>)
        requires
            output_shape@.len() >= 2,
        ensures
            args@ == seq![
                KernelArg::Ptr(Slot::GradOutput),
                KernelArg::Ptr(Slot::GradInput(0)),
                KernelArg::I32(low_i32(output_shape@[1] as int) as i32),
                KernelArg::I32(low_i32(output_shape@[0] as int) as i32),
            ],
    {
        let seq_len: i32 = to_i32(output_shape[1]);
        let n_heads: i32 = to_i32(output_shape[0]);
        vec![
            KernelArg::Ptr(Slot::GradOutput),
            KernelArg::Ptr(Slot::GradInput(0)),
            KernelArg::I32(seq_len),
            KernelArg::I32(n_heads),
        ]
    }

    pub fn backward_block(&self) -> (b: Dim3)
        ensures
            b == block_dim(),
    {
        Dim3 { x: 128, y: 1, z: 1 }
    }

    pub fn backward_grid(&self, output_shape: &[usize]) -> (g: Dim3)
        requires
            output_shape@.len() >= 2,
        ensures
            g.x == low_u32(output_shape@[1] as int),
            g.y == low_u32(output_shape@[0] as int),
            g.z == 1,
    {
        self.grid(output_shape)
    }
}

/// Graph node: `[S, D]` → `[H, S, HEAD_DIM]`.
#[derive(Clone, Copy, Debug, PartialEq, Eq, Structural)]
pub struct TransposeHeadsOp {
    pub n_heads: usize,
    pub head_dim: usize,
}

/// `[S, ..]` → `[H, S, HEAD_DIM]`.
pub open spec fn transposed_shape(op: TransposeHeadsOp, shape: Seq<Option<usize>>) -> Seq<
    Option<usize>,
> {
    seq![Some(op.n_heads), shape[0], Some(op.head_dim)]
}

impl TransposeHeadsOp {
    pub fn new(n_heads: usize, head_dim: usize) -> (r: Self)
        ensures
            r == (TransposeHeadsOp { n_heads, head_dim }),
    {
        TransposeHeadsOp { n_heads, head_dim }
    }

    pub fn custom_data(n_heads: usize, head_dim: usize) -> (r: CustomOp)
        ensures
            r == CustomOp::TransposeHeads(TransposeHeadsOp { n_heads, head_dim }),
    {
        CustomOp::TransposeHeads(Self::new(n_heads, head_dim))
    }

    pub fn name(&self) -> (s: &'static str)
        ensures
            s@ == "transpose_heads"@,
    {
        "transpose_heads"
    }

    /// The sequence length may be dynamic; it is carried over as it is.
    pub fn infer_output_shape(&self, input_shapes: &[&Shape]) -> (out: Shape)
        requires
            input_shapes@.len() >= 1,
            input_shapes@[0]@.len() >= 1,
        ensures
            out@ == transposed_shape(*self, input_shapes@[0]@),
    {
        let seq: Option<usize> = input_shapes[0][0];
        vec![Some(self.n_heads), seq, Some(self.head_dim)]
    }

    pub fn lower(&self) -> (l: Lowered)
        ensures
            l.kernel == (KernelId::TransposeHeads {
                head_dim: low_i32(self.head_dim as int) as i32,
            }),
            l.runtime_op == RuntimeOp::TransposeHeads(
                TransposeHeads { head_dim: low_i32(self.head_dim as int) as i32 },
            ),
    {
        let head_dim: i32 = to_i32(self.head_dim);
        Lowered {
            kernel: KernelId::TransposeHeads { head_dim },
            runtime_op: RuntimeOp::TransposeHeads(TransposeHeads::new(head_dim)),
        }
    }

    pub fn lower_backward(&self) -> (k: KernelId)
        ensures
            k == (KernelId::MergeHeads { head_dim: low_i32(self.head_dim as int) as i32 }),
    {
        KernelId::MergeHeads { head_dim: to_i32(self.head_dim) }
    }
}

/// Runtime op of the `[H, S, HEAD_DIM]` → `[S, D]` kernel.
#[derive(Clone, Copy, Debug, PartialEq, Eq, Structural)]
pub struct MergeHeads {
    pub head_dim: i32,
}

/// The number of heads in a row of `d` elements.
pub open spec fn heads_in_row(d: usize, head_dim: i32) -> int {
    d as int / sign_extended(head_dim)
}

impl MergeHeads {
    pub fn new(head_dim: i32) -> (r: Self)
        ensures
            r == (MergeHeads { head_dim }),
    {
        MergeHeads { head_dim }
    }

    pub fn n_activation_inputs(&self) -> (n: usize)
        ensures
            n == 1,
    {
        1
    }

    /// No parameter buffers.
    pub fn param_shapes(&self) -> (shapes: Vec<Vec<usize>>)
        ensures
            shapes@.len() == 0,
    {
        Vec::new()
    }

    /// Arguments `(src, dst, seq_len, n_heads)`; `output_shape` is `[S, D]`.
    pub fn pack_args(&self, output_shape: &[usize]) -> (args: Vec<KernelArg>)
        requires
            output_shape@.len() >= 2,
            self.head_dim != 0,
        ensures
            args@ == seq![
                KernelArg::Ptr(Slot::Input(0)),
                KernelArg::Ptr(Slot::Output),
                KernelArg::I32(low_i32(output_shape@[0] as int) as i32),
                KernelArg::I32(low_i32(heads_in_row(output_shape@[1], self.head_dim)) as i32),
            ],
    {
        let seq_len: i32 = to_i32(output_shape[0]);
        let n_heads: i32 = to_i32(output_shape[1] / i32_to_usize(self.head_dim));
        vec![
            KernelArg::Ptr(Slot::Input(0)),
            KernelArg::Ptr(Slot::Output),
            KernelArg::I32(seq_len),
            KernelArg::I32(n_heads),
        ]
    }

    pub fn block(&self) -> (b: Dim3)
        ensures
            b == block_dim(),
    {
        Dim3 { x: 128, y: 1, z: 1 }
    }

    /// One block per `(sequence position, head)` pair.
    pub fn grid(&self, output_shape: &[usize]) -> (g: Dim3)
        requires
            output_shape@.len() >= 2,
            self.head_dim != 0,
        ensures
            g.x == low_u32(output_shape@[0] as int),
            g.y == low_u32(heads_in_row(output_shape@[1], self.head_dim)),
            g.z == 1,
    {
        let n_heads: usize = output_shape[1] / i32_to_usize(self.head_dim);
        Dim3 { x: to_u32(output_shape[0]), y: to_u32(n_heads), z: 1 }
    }

    pub fn has_backward(&self) -> (b: bool)
        ensures
            b,
    {
        true
    }

    /// The backward of a merge is a transpose of the incoming gradient.
    pub fn pack_backward_args(&self, output_shape: &[usize]) -> (args: Vec<KernelArg>)
        requires
            output_shape@.len() >= 2,
            self.head_dim != 0,
        ensures
            args@ == seq![
                KernelArg::Ptr(Slot::GradOutput),
                KernelArg::Ptr(Slot::GradInput(0)),
                KernelArg::I32(low_i32(output_shape@[0] as int) as i32),
                KernelArg::I32(low_i32(heads_in_row(output_shape@[1], self.head_dim)) as i32),
            ],
    {
        let seq_len: i32 = to_i32(output_shape[0]);
        let n_heads: i32 = to_i32(output_shape[1] / i32_to_usize(self.head_dim));
        vec![
            KernelArg::Ptr(Slot::GradOutput),
            KernelArg::Ptr(Slot::GradInput(0)),
            KernelArg::I32(seq_len),
            KernelArg::I32(n_heads),
        ]
    }

    pub fn backward_block(&self) -> (b: Dim3)
        ensures
            b == block_dim(),
    {
        Dim3 { x: 128, y: 1, z: 1 }
    }

    pub fn backward_grid(&self, output_shape: &[usize]) -> (g: Dim3)
        requires
            output_shape@.len() >= 2,
            self.head_dim != 0,
        ensures
            g.x == low_u32(output_shape@[0] as int),
            g.y == low_u32(heads_in_row(output_shape@[1], self.head_dim)),
            g.z == 1,
    {
        self.grid(output_shape)
    }
}

/// Graph node: `[H, S, HEAD_DIM]` → `[S, D]`.
#[derive(Clone, Copy, Debug, PartialEq, Eq, Structural)]
pub struct MergeHeadsOp {
    pub n_heads: usize,
    pub head_dim: usize,
}

/// `[H, S, HEAD_DIM]` → `[S, H * HEAD_DIM]`.
pub open spec fn merged_shape(op: MergeHeadsOp, shape: Seq<Option<usize>>) -> Seq<Option<usize>> {
    seq![shape[1], Some((op.n_heads * op.head_dim) as usize)]
}

impl MergeHeadsOp {
    pub fn new(n_heads: usize, head_dim: usize) -> (r: Self)
        ensures
            r == (MergeHeadsOp { n_heads, head_dim }),
    {
        MergeHeadsOp { n_heads, head_dim }
    }

    pub fn custom_data(n_heads: usize, head_dim: usize) -> (r: CustomOp)
        ensures
            r == CustomOp::MergeHeads(MergeHeadsOp { n_heads, head_dim }),
    {
        CustomOp::MergeHeads(Self::new(n_heads, head_dim))
    }

    pub fn name(&self) -> (s: &'static str)
        ensures
            s@ == "merge_heads"@,
    {
        "merge_heads"
    }

    /// The sequence length may be dynamic; it is carried over as it is.
    pub fn infer_output_shape(&self, input_shapes: &[&Shape]) -> (out: Shape)
        requires
            input_shapes@.len() >= 1,
            input_shapes@[0]@.len() >= 2,
            self.n_heads * self.head_dim <= usize::MAX,
        ensures
            out@ == merged_shape(*self, input_shapes@[0]@),
    {
        let seq: Option<usize> = input_shapes[0][1];
        vec![seq, Some(self.n_heads * self.head_dim)]
    }

    pub fn lower(&self) -> (l: Lowered)
        ensures
            l.kernel == (KernelId::MergeHeads { head_dim: low_i32(self.head_dim as int) as i32 }),
            l.runtime_op == RuntimeOp::MergeHeads(
                MergeHeads { head_dim: low_i32(self.head_dim as int) as i32 },
            ),
    {
        let head_dim: i32 = to_i32(self.head_dim);
        Lowered {
            kernel: KernelId::MergeHeads { head_dim },
            runtime_op: RuntimeOp::MergeHeads(MergeHeads::new(head_dim)),
        }
    }

    pub fn lower_backward(&self) -> (k: KernelId)
        ensures
            k == (KernelId::TransposeHeads { head_dim: low_i32(self.head_dim as int) as i32 }),
    {
        KernelId::TransposeHeads { head_dim: to_i32(self.head_dim) }
    }
}

} // verus!
