//! SwiGLU fused activation.
//!
//! Input layout: `z [M, 2·d_ff]`; the first `d_ff` columns hold gate values, the
//! last `d_ff` columns up-projection values.
//!
//! **Forward**: `out[m, n] = silu(z[m, n]) · z[m, n + d_ff]`
//! where `silu(x) = x · σ(x)`.
//!
//! **Backward**:
//! ```text
//! d_silu/d_gate     = σ · (1 + gate · (1 − σ))
//! dz_gate[m,n]      = grad[m,n] · up[m,n] · d_silu/d_gate
//! dz_up[m,n+d_ff]   = grad[m,n] · silu(gate[m,n])
//! ```

use vstd::prelude::*;

use crate::cast::{low_i32, low_u32, to_i32, to_u32};
use crate::graph::{copy_shape, CustomOp, Shape};
use crate::ieee::F32_ONE;
use crate::kernels::exact::{eval, lemma_one_value, Model, Value};
use crate::kernels::launch::{block_dim, Dim3, KernelArg, KernelId, Lowered, RuntimeOp, Slot};
use crate::kernels::reals::prod;
use crate::kernels::tile::{
    at, filled, mapped, tile_full, tile_map, tile_zip, with_run, BinOp, Expr, Tile, Trace,
    TraceView, UnOp,
};

verus! {

// ---------------------------------------------------------------------------
// Kernels
// ---------------------------------------------------------------------------
/// Row `row` is a block of the grid `(m, 1, 1)`, the input has no more cells than an
/// offset can name, and neither do the columns of the last tile.
pub open spec fn swiglu_launch(row: i32, block_n: i32, m: i32, d_ff: i32) -> bool {
    &&& 0 <= row < m
    &&& 0 < block_n
    &&& 0 <= d_ff
    &&& m * d_ff * 2 <= i32::MAX
    &&& d_ff + block_n <= i32::MAX
}

/// The first column of the gating values of a row of `[M, 2·d_ff]`.
pub open spec fn gate_base(row: int, d_ff: int) -> int {
    row * d_ff * 2
}

/// `silu(x) = x · σ(x)`.
pub open spec fn silu(x: Expr) -> Expr {
    x.times(x.apply(UnOp::Sigmoid))
}

/// `silu(gate) · up`, column `n` of a row, read from buffer `z`.
pub open spec fn swiglu_value(z: int, row: int, d_ff: int, n: int) -> Expr {
    silu(at(z, gate_base(row, d_ff) + n)).times(at(z, gate_base(row, d_ff) + d_ff + n))
}

/// What block `row` of [`swiglu_forward`] stores: its row of buffer 1.
pub open spec fn swiglu_cells(row: int, d_ff: int) -> Map<(int, int), Expr> {
    with_run(
        Map::empty(),
        1,
        row * d_ff,
        Seq::new(d_ff as nat, |n: int| swiglu_value(0, row, d_ff, n)),
    )
}

/// `d silu(x) / dx = σ · (1 + x · (1 − σ))`.
pub open spec fn silu_derivative(x: Expr) -> Expr {
    let sig = x.apply(UnOp::Sigmoid);
    let one = Expr::Const(F32_ONE).apply(UnOp::Cast);
    sig.times(one.plus(x.times(one.minus(sig))))
}

/// The gradient of a gate value, column `n`: `grad · up · d_silu`.
pub open spec fn gate_gradient(row: int, d_ff: int, n: int) -> Expr {
    let grad = at(0, row * d_ff + n);
    let gate = at(1, gate_base(row, d_ff) + n);
    let up = at(1, gate_base(row, d_ff) + d_ff + n);
    grad.times(up).times(silu_derivative(gate))
}

/// The gradient of an up-projection value, column `n`: `grad · silu(gate)`.
pub open spec fn up_gradient(row: int, d_ff: int, n: int) -> Expr {
    at(0, row * d_ff + n).times(silu(at(1, gate_base(row, d_ff) + n)))
}

/// The columns below `end` of both halves of the gradient row.
pub open spec fn swiglu_backward_cells(row: int, d_ff: int, end: int) -> Map<(int, int), Expr> {
    with_run(
        with_run(
            Map::empty(),
            2,
            gate_base(row, d_ff),
            Seq::new(end as nat, |n: int| gate_gradient(row, d_ff, n)),
        ),
        2,
        gate_base(row, d_ff) + d_ff,
        Seq::new(end as nat, |n: int| up_gradient(row, d_ff, n)),
    )
}

/// The offsets of a row fit.
proof fn lemma_swiglu_launch(row: i32, block_n: i32, m: i32, d_ff: i32)
    requires
        swiglu_launch(row, block_n, m, d_ff),
    ensures
        0 <= row * d_ff,
        row * d_ff + d_ff <= i32::MAX,
        row * d_ff * 2 + 2 * d_ff <= i32::MAX,
{
    assert(0 <= row * d_ff && (row + 1) * d_ff <= m * d_ff) by (nonlinear_arith)
        requires
            0 <= row < m,
            0 <= d_ff,
    ;
    assert((row + 1) * d_ff == row * d_ff + d_ff) by (nonlinear_arith);
}

/// SwiGLU forward, one block: one row.
///
/// Arguments: `z [M, 2·d_ff]` (0), `out [M, d_ff]` (1), `M` (2), `d_ff` (3).
pub fn swiglu_forward(row: i32, block_n: i32, m: i32, d_ff: i32) -> (t: Trace)
    requires
        swiglu_launch(row, block_n, m, d_ff),
    ensures
        t@ == (TraceView { stores: swiglu_cells(row as int, d_ff as int), adds: Map::empty() }),
{
    proof {
        lemma_swiglu_launch(row, block_n, m, d_ff);
    }
    let row_gate: i32 = row * d_ff * 2;
    let row_up: i32 = row_gate + d_ff;
    let row_out: i32 = row * d_ff;

    let mut t = Trace::new();
    let mut n_start: i32 = 0;
    let ghost all = Seq::new(d_ff as nat, |n: int| swiglu_value(0, row as int, d_ff as int, n));
    assert(t@.stores =~= with_run(Map::empty(), 1, row_out as int, all.take(0)));
    while n_start < d_ff
        invariant
            0 <= n_start < d_ff + block_n,
            swiglu_launch(row, block_n, m, d_ff),
            row_gate == gate_base(row as int, d_ff as int),
            row_up == row_gate + d_ff,
            row_out == row * d_ff,
            0 <= row_out,
            row_out + d_ff <= i32::MAX,
            0 <= row_gate,
            row_up + d_ff <= i32::MAX,
            all == Seq::new(d_ff as nat, |n: int| swiglu_value(0, row as int, d_ff as int, n)),
            t@.stores == with_run(
                Map::empty(),
                1,
                row_out as int,
                all.take(
                    if n_start < d_ff {
                        n_start as int
                    } else {
                        d_ff as int
                    },
                ),
            ),
            t@.adds == Map::<(int, int), Expr>::empty(),
        decreases d_ff + block_n - n_start,
    {
        let gate: Tile = t.load_masked(0, row_gate, n_start, d_ff, block_n);
        let up: Tile = t.load_masked(0, row_up, n_start, d_ff, block_n);

        let sig: Tile = tile_map(UnOp::Sigmoid, &gate);
        let silu: Tile = tile_zip(BinOp::Mul, &gate, &sig);
        let out: Tile = tile_zip(BinOp::Mul, &silu, &up);

        t.store_masked(1, row_out, n_start, d_ff, &out);
        proof {
            let end = if n_start + block_n < d_ff {
                n_start + block_n
            } else {
                d_ff as int
            };
            assert forall|i: int| 0 <= i < end - n_start implies #[trigger] out@[i] == all[n_start
                + i] by {
                assert(gate@[i] == at(0, row_gate + n_start + i));
                assert(up@[i] == at(0, row_up + n_start + i));
            }
            assert(t@.stores =~= with_run(Map::empty(), 1, row_out as int, all.take(end)));
        }
        n_start = n_start + block_n;
    }
    assert(all.take(d_ff as int) =~= all);
    t
}

/// SwiGLU backward, one block: one row.
///
/// Arguments: `grad [M, d_ff]` (0), `z [M, 2·d_ff]` (1), `dz [M, 2·d_ff]` (2), `M` (3),
/// `d_ff` (4).
pub fn swiglu_backward(row: i32, block_n: i32, m: i32, d_ff: i32) -> (t: Trace)
    requires
        swiglu_launch(row, block_n, m, d_ff),
    ensures
        t@ == (TraceView {
            stores: swiglu_backward_cells(row as int, d_ff as int, d_ff as int),
            adds: Map::empty(),
        }),
{
    proof {
        lemma_swiglu_launch(row, block_n, m, d_ff);
    }
    let row_gate: i32 = row * d_ff * 2;
    let row_up: i32 = row_gate + d_ff;
    let row_grad: i32 = row * d_ff;

    let one: Tile = tile_map(UnOp::Cast, &tile_full(block_n as usize, &Expr::Const(F32_ONE)));

    let mut t = Trace::new();
    let mut n_start: i32 = 0;
    assert(t@.stores =~= swiglu_backward_cells(row as int, d_ff as int, 0));
    while n_start < d_ff
        invariant
            0 <= n_start < d_ff + block_n,
            swiglu_launch(row, block_n, m, d_ff),
            row_gate == gate_base(row as int, d_ff as int),
            row_up == row_gate + d_ff,
            row_grad == row * d_ff,
            0 <= row_grad,
            row_grad + d_ff <= i32::MAX,
            0 <= row_gate,
            row_up + d_ff <= i32::MAX,
            one@ == mapped(UnOp::Cast, filled(block_n as nat, Expr::Const(F32_ONE))),
            t@.stores == swiglu_backward_cells(
                row as int,
                d_ff as int,
                if n_start < d_ff {
                    n_start as int
                } else {
                    d_ff as int
                },
            ),
            t@.adds == Map::<(int, int), Expr>::empty(),
        decreases d_ff + block_n - n_start,
    {
        let ghost before = t@.stores;
        let grad: Tile = t.load_masked(0, row_grad, n_start, d_ff, block_n);
        let gate: Tile = t.load_masked(1, row_gate, n_start, d_ff, block_n);
        let up: Tile = t.load_masked(1, row_up, n_start, d_ff, block_n);

        let sig: Tile = tile_map(UnOp::Sigmoid, &gate);
        let silu: Tile = tile_zip(BinOp::Mul, &gate, &sig);
        // d(silu)/d(gate) = σ(1 + gate(1 − σ))
        let rest: Tile = tile_zip(BinOp::Sub, &one, &sig);
        let slope: Tile = tile_zip(BinOp::Add, &one, &tile_zip(BinOp::Mul, &gate, &rest));
        let d_silu: Tile = tile_zip(BinOp::Mul, &sig, &slope);

        let dgate: Tile = tile_zip(BinOp::Mul, &tile_zip(BinOp::Mul, &grad, &up), &d_silu);
        let dup: Tile = tile_zip(BinOp::Mul, &grad, &silu);
        t.store_masked(2, row_gate, n_start, d_ff, &dgate);
        t.store_masked(2, row_up, n_start, d_ff, &dup);
        proof {
            let (r, w) = (row as int, d_ff as int);
            let end = if n_start + block_n < d_ff {
                n_start + block_n
            } else {
                d_ff as int
            };
            assert forall|i: int| 0 <= i < end - n_start implies #[trigger] dgate@[i]
                == gate_gradient(r, w, n_start + i) && dup@[i] == up_gradient(r, w, n_start + i) by {
                assert(grad@[i] == at(0, row_grad + n_start + i));
                assert(gate@[i] == at(1, row_gate + n_start + i));
                assert(up@[i] == at(1, row_up + n_start + i));
            }
            let len = if block_n <= d_ff - n_start {
                block_n as int
            } else {
                d_ff - n_start
            };
            assert(t@.stores == with_run(
                with_run(before, 2, row_gate + n_start, dgate@.take(len)),
                2,
                row_up + n_start,
                dup@.take(len),
            )) by {
                assert(dgate@.take(dgate@.len() as int) =~= dgate@);
                assert(dup@.take(dup@.len() as int) =~= dup@);
            }
            assert(t@.stores =~= swiglu_backward_cells(r, w, end));
        }
        n_start = n_start + block_n;
    }
    t
}

/// Launches set every cell of their outputs once: cell `n` of row `r` of `[M, d_ff]`,
/// and of `[M, 2·d_ff]` in the backward pass, is set by block `r` and no other.
pub proof fn swiglu_sets_every_cell(r: int, n: int, row: int, d_ff: int)
    requires
        0 < d_ff,
        0 <= r,
        0 <= row,
    ensures
        0 <= n < d_ff ==> (swiglu_cells(row, d_ff).dom().contains((1, r * d_ff + n)) <==> row
            == r),
        0 <= n < 2 * d_ff ==> (swiglu_backward_cells(row, d_ff, d_ff).dom().contains(
            (2, gate_base(r, d_ff) + n),
        ) <==> row == r),
{
    if row < r {
        assert(row * d_ff + d_ff <= r * d_ff) by (nonlinear_arith)
            requires
                row + 1 <= r,
                d_ff > 0,
        ;
    } else if r < row {
        assert(r * d_ff + d_ff <= row * d_ff) by (nonlinear_arith)
            requires
                r + 1 <= row,
                d_ff > 0,
        ;
    }
}

/// In exact arithmetic the forward pass computes `silu(gate) · up`, whatever the tile
/// width.
pub proof fn forward_value(row: i32, block_n: i32, m: i32, d_ff: i32, n: int, md: Model)
    requires
        swiglu_launch(row, block_n, m, d_ff),
        0 <= n < d_ff,
    ensures
        ({
            let base = gate_base(row as int, d_ff as int);
            let gate = (md.load)(0, base + n);
            let up = (md.load)(0, base + d_ff + n);
            eval(swiglu_cells(row as int, d_ff as int)[(1, row * d_ff + n)], md) == Value::Fin(
                prod(prod(gate, (md.sigmoid)(gate)), up),
            )
        }),
{
    lemma_swiglu_launch(row, block_n, m, d_ff);
    let base = gate_base(row as int, d_ff as int);
    let gate = at(0, base + n);
    let up = at(0, base + d_ff + n);
    assert(eval(gate, md) == Value::Fin((md.load)(0, base + n)));
    assert(eval(up, md) == Value::Fin((md.load)(0, base + d_ff + n)));
    assert(eval(gate.apply(UnOp::Sigmoid), md) is Fin);
    assert(eval(silu(gate), md) is Fin);
}

/// In exact arithmetic the backward pass computes `grad · up · σ(1 + gate(1 − σ))` and
/// `grad · silu(gate)`, whatever the tile width.
pub proof fn backward_value(row: i32, block_n: i32, m: i32, d_ff: i32, n: int, md: Model)
    requires
        swiglu_launch(row, block_n, m, d_ff),
        0 <= n < d_ff,
    ensures
        ({
            let base = gate_base(row as int, d_ff as int);
            let cells = swiglu_backward_cells(row as int, d_ff as int, d_ff as int);
            let grad = (md.load)(0, row * d_ff + n);
            let gate = (md.load)(1, base + n);
            let up = (md.load)(1, base + d_ff + n);
            let sig = (md.sigmoid)(gate);
            &&& eval(cells[(2, base + n)], md) == Value::Fin(
                prod(prod(grad, up), prod(sig, 1real + prod(gate, 1real - sig))),
            )
            &&& eval(cells[(2, base + d_ff + n)], md) == Value::Fin(prod(grad, prod(gate, sig)))
        }),
{
    lemma_swiglu_launch(row, block_n, m, d_ff);
    let base = gate_base(row as int, d_ff as int);
    let grad = at(0, row * d_ff + n);
    let gate = at(1, base + n);
    let up = at(1, base + d_ff + n);
    let sig = gate.apply(UnOp::Sigmoid);
    let one = Expr::Const(F32_ONE).apply(UnOp::Cast);
    lemma_one_value(md);
    assert(eval(grad, md) == Value::Fin((md.load)(0, row * d_ff + n)));
    assert(eval(gate, md) == Value::Fin((md.load)(1, base + n)));
    assert(eval(up, md) == Value::Fin((md.load)(1, base + d_ff + n)));
    assert(eval(sig, md) is Fin);
    assert(eval(one, md) == Value::Fin(1real));
    assert(eval(one.minus(sig), md) is Fin);
    assert(eval(gate.times(one.minus(sig)), md) is Fin);
    assert(eval(one.plus(gate.times(one.minus(sig))), md) is Fin);
    assert(eval(silu_derivative(gate), md) is Fin);
    assert(eval(grad.times(up), md) is Fin);
    assert(eval(silu(gate), md) is Fin);
}

// ---------------------------------------------------------------------------
// Runtime op
// ---------------------------------------------------------------------------
/// Runtime op: the forward kernel with its compile-time tile width.
#[derive(Clone, Copy, Debug, PartialEq, Eq, Structural)]
pub struct SwigluForward {
    pub block_n: i32,
}

impl SwigluForward {
    pub fn new(block_n: i32) -> (r: Self)
        ensures
            r == (SwigluForward { block_n }),
    {
        SwigluForward { block_n }
    }

    pub fn n_activation_inputs(&self) -> (n: usize)
        ensures
            n == 1,
    {
        1
    }

    /// No parameter buffers.
    pub fn param_shapes(&self) -> (shapes: Vec<Vec<usize>>)
        ensures
            shapes@.len() == 0,
    {
        Vec::new()
    }

    /// Arguments `(z, out, M, d_ff)`; `output_shape` is `[M, d_ff]`.
    pub fn pack_args(&self, output_shape: &[usize]) -> (args: Vec<KernelArg>)
        requires
            output_shape@.len() >= 2,
        ensures
            args@ == seq![
                KernelArg::Ptr(Slot::Input(0)),
                KernelArg::Ptr(Slot::Output),
                KernelArg::I32(low_i32(output_shape@[0] as int) as i32),
                KernelArg::I32(low_i32(output_shape@[1] as int) as i32),
            ],
    {
        let m: i32 = to_i32(output_shape[0]);
        let d_ff: i32 = to_i32(output_shape[1]);
        vec![
            KernelArg::Ptr(Slot::Input(0)),
            KernelArg::Ptr(Slot::Output),
            KernelArg::I32(m),
            KernelArg::I32(d_ff),
        ]
    }

    pub fn block(&self) -> (b: Dim3)
        ensures
            b == block_dim(),
    {
        Dim3 { x: 128, y: 1, z: 1 }
    }

    /// One block per row.
    pub fn grid(&self, output_shape: &[usize]) -> (g: Dim3)
        requires
            output_shape@.len() >= 1,
        ensures
            g.x == low_u32(output_shape@[0] as int),
            g.y == 1,
            g.z == 1,
    {
        Dim3 { x: to_u32(output_shape[0]), y: 1, z: 1 }
    }

    pub fn has_backward(&self) -> (b: bool)
        ensures
            b,
    {
        true
    }

    /// Arguments `(grad, z, dz, M, d_ff)`.
    pub fn pack_backward_args(&self, output_shape: &[usize]) -> (args: Vec<KernelArg>)
        requires
            output_shape@.len() >= 2,
        ensures
            args@ == seq![
                KernelArg::Ptr(Slot::GradOutput),
                KernelArg::Ptr(Slot::Input(0)),
                KernelArg::Ptr(Slot::GradInput(0)),
                KernelArg::I32(low_i32(output_shape@[0] as int) as i32),
                KernelArg::I32(low_i32(output_shape@[1] as int) as i32),
            ],
    {
        let m: i32 = to_i32(output_shape[0]);
        let d_ff: i32 = to_i32(output_shape[1]);
        vec![
            KernelArg::Ptr(Slot::GradOutput),
            KernelArg::Ptr(Slot::Input(0)),
            KernelArg::Ptr(Slot::GradInput(0)),
            KernelArg::I32(m),
            KernelArg::I32(d_ff),
        ]
    }

    pub fn backward_block(&self) -> (b: Dim3)
        ensures
            b == block_dim(),
    {
        Dim3 { x: 128, y: 1, z: 1 }
    }

    pub fn backward_grid(&self, output_shape: &[usize]) -> (g: Dim3)
        requires
            output_shape@.len() >= 1,
        ensures
            g.x == low_u32(output_shape@[0] as int),
            g.y == 1,
            g.z == 1,
    {
        self.grid(output_shape)
    }
}

/// Graph node of the fused activation: `z [M, 2·d_ff]` → `out [M, d_ff]`.
#[derive(Clone, Copy, Debug, PartialEq, Eq, Structural)]
pub struct SwigluOp {
    pub block_n: i32,
}

/// The last dimension halved, a dynamic one kept dynamic.
pub open spec fn halved_shape(shape: Seq<Option<usize>>) -> Seq<Option<usize>> {
    shape.update(
        shape.len() - 1,
        match shape.last() {
            Some(n) => Some((n / 2) as usize),
            None => None,
        },
    )
}

impl SwigluOp {
    pub fn new() -> (r: Self)
        ensures
            r == (SwigluOp { block_n: 1024 }),
    {
        SwigluOp { block_n: 1024 }
    }

    pub fn custom_data() -> (r: CustomOp)
        ensures
            r == CustomOp::Swiglu(SwigluOp { block_n: 1024 }),
    {
        CustomOp::Swiglu(Self::new())
    }

    pub fn name(&self) -> (s: &'static str)
        ensures
            s@ == "swiglu"@,
    {
        "swiglu"
    }

    /// The shape of the input with its last dimension halved.
    pub fn infer_output_shape(&self, input_shapes: &[&Shape]) -> (out: Shape)
        requires
            input_shapes@.len() >= 1,
            input_shapes@[0]@.len() >= 1,
        ensures
            out@ == halved_shape(input_shapes@[0]@),
    {
        let mut out: Shape = copy_shape(input_shapes[0]);
        let last: usize = out.len() - 1;
        let halved: Option<usize> = match out[last] {
            Some(n) => Some(n / 2),
            None => None,
        };
        out.set(last, halved);
        out
    }

    pub fn lower(&self) -> (l: Lowered)
        ensures
            l.kernel == (KernelId::SwigluForward { block_n: self.block_n }),
            l.runtime_op == RuntimeOp::Swiglu(SwigluForward { block_n: self.block_n }),
    {
        Lowered {
            kernel: KernelId::SwigluForward { block_n: self.block_n },
            runtime_op: RuntimeOp::Swiglu(SwigluForward::new(self.block_n)),
        }
    }

    pub fn lower_backward(&self) -> (k: KernelId)
        ensures
            k == (KernelId::SwigluBackward { block_n: self.block_n }),
    {
        KernelId::SwigluBackward { block_n: self.block_n }
    }
}

impl Default for SwigluOp {
    fn default() -> (r: Self)
        ensures
            r == (SwigluOp { block_n: 1024 }),
    {
        Self::new()
    }
}

} // verus!
