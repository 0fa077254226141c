//! Rotary position embedding (RoPE).
//!
//! Layout: `[BH, N_CTX, HEAD_DIM]` row-major, where `BH = BATCH * N_HEADS`. For
//! the token at position `pos` and the pair `k < HEAD_DIM / 2`:
//!
//! ```text
//! θ_k      = pos · base^(-2k/HEAD_DIM)
//! y[2k]    =  x[2k]   · cos(θ_k) − x[2k+1] · sin(θ_k)
//! y[2k+1]  =  x[2k]   · sin(θ_k) + x[2k+1] · cos(θ_k)
//! ```
//!
//! The backward pass is the inverse rotation.

use vstd::prelude::*;

use crate::cast::{low_i32, low_u32, to_i32, to_u32};
use crate::graph::{copy_shape, CustomOp, Shape};
use crate::ieee::{F32Bits, F32_MINUS_TWO};
use crate::kernels::exact::{eval, Model, Value};
use crate::kernels::index::{
    lemma_offset3_bounds, lemma_offset3_decodes, lemma_row_offset, offset3,
};
use crate::kernels::launch::{block_dim, Dim3, KernelArg, KernelId, Lowered, RuntimeOp, Slot};
use crate::kernels::reals::{lemma_rotation, prod};
use crate::kernels::tile::{
    at, tile_full, tile_map, tile_zip, with_every_other, BinOp, Expr, Tile, Trace, TraceView, UnOp,
};

verus! {

// ---------------------------------------------------------------------------
// Kernels
// ---------------------------------------------------------------------------
/// Position `(pos, bh)` is a block of a grid `(n_ctx, bh_count, 1)`, and the tensor
/// has no more cells than an offset can name.
pub open spec fn rope_launch(pos: i32, bh: i32, head_dim: i32, n_ctx: i32) -> bool {
    &&& 0 <= pos < n_ctx
    &&& 0 <= bh
    &&& 0 < head_dim
    &&& (bh + 1) * n_ctx * head_dim <= i32::MAX
}

/// The first cell of row `[bh, pos]` of `[BH, N_CTX, HEAD_DIM]`.
pub open spec fn rope_row(pos: int, bh: int, head_dim: int, n_ctx: int) -> int {
    offset3(bh, pos, 0, n_ctx, head_dim)
}

/// `θ_k = pos · exp(k · (−2 · ln(base) / HEAD_DIM))`.
pub open spec fn rope_angle(pos: int, k: int, head_dim: int) -> Expr {
    let rate = Expr::Const(F32_MINUS_TWO).times(Expr::Arg(3)).over(Expr::Int(head_dim as i32));
    Expr::Int(pos as i32).times(Expr::Int(k as i32).times(rate).apply(UnOp::Exp))
}

/// `x · cos(θ) − y · sin(θ)`.
pub open spec fn rotated_even(x: Expr, y: Expr, angle: Expr) -> Expr {
    x.times(angle.apply(UnOp::Cos)).minus(y.times(angle.apply(UnOp::Sin)))
}

/// `x · sin(θ) + y · cos(θ)`.
pub open spec fn rotated_odd(x: Expr, y: Expr, angle: Expr) -> Expr {
    x.times(angle.apply(UnOp::Sin)).plus(y.times(angle.apply(UnOp::Cos)))
}

/// `x · cos(θ) + y · sin(θ)`.
pub open spec fn unrotated_even(x: Expr, y: Expr, angle: Expr) -> Expr {
    x.times(angle.apply(UnOp::Cos)).plus(y.times(angle.apply(UnOp::Sin)))
}

/// `−x · sin(θ) + y · cos(θ)`.
pub open spec fn unrotated_odd(x: Expr, y: Expr, angle: Expr) -> Expr {
    x.apply(UnOp::Neg).times(angle.apply(UnOp::Sin)).plus(y.times(angle.apply(UnOp::Cos)))
}

/// What block `(pos, bh)` of [`rope_forward`] stores: the pairs of its row of
/// buffer 0, rotated, in the row of buffer 1.
pub open spec fn rope_cells(pos: int, bh: int, head_dim: int, n_ctx: int) -> Map<
    (int, int),
    Expr,
> {
    let row = rope_row(pos, bh, head_dim, n_ctx);
    let half = (head_dim / 2) as nat;
    with_every_other(
        with_every_other(
            Map::empty(),
            1,
            row,
            Seq::new(
                half,
                |k: int|
                    rotated_even(
                        at(0, row + 2 * k),
                        at(0, row + 2 * k + 1),
                        rope_angle(pos, k, head_dim),
                    ),
            ),
        ),
        1,
        row + 1,
        Seq::new(
            half,
            |k: int|
                rotated_odd(
                    at(0, row + 2 * k),
                    at(0, row + 2 * k + 1),
                    rope_angle(pos, k, head_dim),
                ),
        ),
    )
}

/// What block `(pos, bh)` of [`rope_backward`] stores: the pairs of its row of
/// buffer 0, rotated back, in the row of buffer 1.
pub open spec fn rope_backward_cells(pos: int, bh: int, head_dim: int, n_ctx: int) -> Map<
    (int, int),
    Expr,
> {
    let row = rope_row(pos, bh, head_dim, n_ctx);
    let half = (head_dim / 2) as nat;
    with_every_other(
        with_every_other(
            Map::empty(),
            1,
            row,
            Seq::new(
                half,
                |k: int|
                    unrotated_even(
                        at(0, row + 2 * k),
                        at(0, row + 2 * k + 1),
                        rope_angle(pos, k, head_dim),
                    ),
            ),
        ),
        1,
        row + 1,
        Seq::new(
            half,
            |k: int|
                unrotated_odd(
                    at(0, row + 2 * k),
                    at(0, row + 2 * k + 1),
                    rope_angle(pos, k, head_dim),
                ),
        ),
    )
}

/// The row offset of a block fits.
proof fn lemma_rope_launch(pos: i32, bh: i32, head_dim: i32, n_ctx: i32)
    requires
        rope_launch(pos, bh, head_dim, n_ctx),
    ensures
        0 <= bh * n_ctx <= i32::MAX,
        0 <= bh * n_ctx * head_dim <= i32::MAX,
        0 <= pos * head_dim <= i32::MAX,
        bh * n_ctx * head_dim + pos * head_dim == rope_row(
            pos as int,
            bh as int,
            head_dim as int,
            n_ctx as int,
        ),
        rope_row(pos as int, bh as int, head_dim as int, n_ctx as int) + head_dim <= i32::MAX,
{
    let (p, b, c, n) = (pos as int, bh as int, head_dim as int, n_ctx as int);
    lemma_offset3_bounds(b, p, c, b + 1, n, c);
    lemma_row_offset(b, p, n, c);
    assert(0 <= b * n && 0 <= b * n * c && 0 <= p * c) by (nonlinear_arith)
        requires
            0 <= b,
            0 <= n,
            0 <= p,
            0 < c,
    ;
    assert(b * n <= b * n * c) by (nonlinear_arith)
        requires
            0 <= b * n,
            0 < c,
    ;
}

/// The angles of a block, one per pair.
fn rope_angles(pid_pos: i32, head_dim: i32) -> (r: Tile)
    requires
        0 < head_dim,
    ensures
        r@ == Seq::new(
            (head_dim / 2) as nat,
            |k: int| rope_angle(pid_pos as int, k, head_dim as int),
        ),
{
    let half: i32 = head_dim / 2;
    let rate = Expr::Bin(
        BinOp::Div,
        Box::new(
            Expr::Bin(BinOp::Mul, Box::new(Expr::Const(F32_MINUS_TWO)), Box::new(Expr::Arg(3))),
        ),
        Box::new(Expr::Int(head_dim)),
    );
    let mut steps: Tile = Vec::new();
    let mut k: i32 = 0;
    while k < half
        invariant
            0 <= k <= half,
            steps@ == Seq::new(k as nat, |i: int| Expr::Int(i as i32)),
        decreases half - k,
    {
        steps.push(Expr::Int(k));
        k += 1;
        assert(steps@ =~= Seq::new(k as nat, |i: int| Expr::Int(i as i32)));
    }
    let rates: Tile = tile_full(half as usize, &rate);
    let freqs: Tile = tile_map(UnOp::Exp, &tile_zip(BinOp::Mul, &steps, &rates));
    let pos: Tile = tile_full(half as usize, &Expr::Int(pid_pos));
    let angles: Tile = tile_zip(BinOp::Mul, &pos, &freqs);
    assert(angles@ =~= Seq::new(
        (head_dim / 2) as nat,
        |k: int| rope_angle(pid_pos as int, k, head_dim as int),
    ));
    angles
}

/// RoPE forward pass, one block: one row.
///
/// Arguments: `x` (0), `y` (1), `n_ctx` (2), `ln(rope_base)` (3).
pub fn rope_forward(pid_pos: i32, pid_bh: i32, head_dim: i32, n_ctx: i32) -> (t: Trace)
    requires
        rope_launch(pid_pos, pid_bh, head_dim, n_ctx),
    ensures
        t@ == (TraceView {
            stores: rope_cells(pid_pos as int, pid_bh as int, head_dim as int, n_ctx as int),
            adds: Map::empty(),
        }),
{
    proof {
        lemma_rope_launch(pid_pos, pid_bh, head_dim, n_ctx);
    }
    let row_base: i32 = pid_bh * n_ctx * head_dim + pid_pos * head_dim;
    let half: i32 = head_dim / 2;

    let mut t = Trace::new();
    let x_even: Tile = t.load_every_other(0, row_base, half);
    let x_odd: Tile = t.load_every_other(0, row_base + 1, half);

    let angles: Tile = rope_angles(pid_pos, head_dim);
    let cos_t: Tile = tile_map(UnOp::Cos, &angles);
    let sin_t: Tile = tile_map(UnOp::Sin, &angles);

    let y_even: Tile = tile_zip(
        BinOp::Sub,
        &tile_zip(BinOp::Mul, &x_even, &cos_t),
        &tile_zip(BinOp::Mul, &x_odd, &sin_t),
    );
    let y_odd: Tile = tile_zip(
        BinOp::Add,
        &tile_zip(BinOp::Mul, &x_even, &sin_t),
        &tile_zip(BinOp::Mul, &x_odd, &cos_t),
    );
    t.store_every_other(1, row_base, &y_even);
    t.store_every_other(1, row_base + 1, &y_odd);
    assert(t@.stores =~= rope_cells(
        pid_pos as int,
        pid_bh as int,
        head_dim as int,
        n_ctx as int,
    ));
    t
}

/// RoPE backward pass — inverse (transposed) rotation, one block: one row.
///
/// Arguments: `dy` (0), `dx` (1), `n_ctx` (2), `ln(rope_base)` (3).
pub fn rope_backward(pid_pos: i32, pid_bh: i32, head_dim: i32, n_ctx: i32) -> (t: Trace)
    requires
        rope_launch(pid_pos, pid_bh, head_dim, n_ctx),
    ensures
        t@ == (TraceView {
            stores: rope_backward_cells(
                pid_pos as int,
                pid_bh as int,
                head_dim as int,
                n_ctx as int,
            ),
            adds: Map::empty(),
        }),
{
    proof {
        lemma_rope_launch(pid_pos, pid_bh, head_dim, n_ctx);
    }
    let row_base: i32 = pid_bh * n_ctx * head_dim + pid_pos * head_dim;
    let half: i32 = head_dim / 2;

    let mut t = Trace::new();
    let dy_even: Tile = t.load_every_other(0, row_base, half);
    let dy_odd: Tile = t.load_every_other(0, row_base + 1, half);

    let angles: Tile = rope_angles(pid_pos, head_dim);
    let cos_t: Tile = tile_map(UnOp::Cos, &angles);
    let sin_t: Tile = tile_map(UnOp::Sin, &angles);

    // Inverse rotation: R(-θ) applied to dy.
    let dx_even: Tile = tile_zip(
        BinOp::Add,
        &tile_zip(BinOp::Mul, &dy_even, &cos_t),
        &tile_zip(BinOp::Mul, &dy_odd, &sin_t),
    );
    let dx_odd: Tile = tile_zip(
        BinOp::Add,
        &tile_zip(BinOp::Mul, &tile_map(UnOp::Neg, &dy_even), &sin_t),
        &tile_zip(BinOp::Mul, &dy_odd, &cos_t),
    );
    t.store_every_other(1, row_base, &dx_even);
    t.store_every_other(1, row_base + 1, &dx_odd);
    assert(t@.stores =~= rope_backward_cells(
        pid_pos as int,
        pid_bh as int,
        head_dim as int,
        n_ctx as int,
    ));
    t
}

/// A launch sets every cell of the output: with an even head dimension, cell `[b, p, d]`
/// is set by block `(p, b)` and no other.
pub proof fn rope_sets_every_cell(
    b: int,
    p: int,
    d: int,
    pos: int,
    bh: int,
    head_dim: int,
    n_ctx: int,
)
    requires
        0 < head_dim,
        head_dim % 2 == 0,
        0 <= p < n_ctx,
        0 <= pos < n_ctx,
        0 <= d < head_dim,
    ensures
        rope_cells(pos, bh, head_dim, n_ctx).dom().contains(
            (1, offset3(b, p, d, n_ctx, head_dim)),
        ) <==> pos == p && bh == b,
        rope_backward_cells(pos, bh, head_dim, n_ctx).dom().contains(
            (1, offset3(b, p, d, n_ctx, head_dim)),
        ) <==> pos == p && bh == b,
{
    let o = offset3(b, p, d, n_ctx, head_dim);
    let row = rope_row(pos, bh, head_dim, n_ctx);
    lemma_offset3_decodes(b, p, d, n_ctx, head_dim);
    if row <= o < row + head_dim {
        lemma_offset3_decodes(bh, pos, o - row, n_ctx, head_dim);
    }
}

/// The value of an angle.
pub open spec fn angle_value(pos: int, k: int, head_dim: int, m: Model) -> real {
    eval(rope_angle(pos, k, head_dim), m)->Fin_0
}

/// Angles are finite where the logarithm of the base is.
proof fn lemma_angle_value(pos: i32, k: int, head_dim: i32, m: Model)
    requires
        0 < head_dim,
        0 <= k < head_dim,
        (m.arg)(3) is Fin,
    ensures
        eval(rope_angle(pos as int, k, head_dim as int), m) == Value::Fin(
            angle_value(pos as int, k, head_dim as int, m),
        ),
{
    let c = Expr::Const(F32_MINUS_TWO);
    let lnb = Expr::Arg(3);
    let n = Expr::Int(head_dim);
    let rate = c.times(lnb).over(n);
    assert(eval(c, m) is Fin);
    assert(eval(lnb, m) is Fin);
    assert(eval(c.times(lnb), m) is Fin);
    assert(eval(n, m) == Value::Fin(head_dim as real));
    assert(eval(rate, m) is Fin);
    let step = Expr::Int(k as i32);
    assert(eval(step, m) is Fin);
    assert(eval(step.times(rate), m) is Fin);
    assert(eval(step.times(rate).apply(UnOp::Exp), m) is Fin);
    assert(eval(Expr::Int(pos), m) is Fin);
}

/// In exact arithmetic the backward pass undoes the forward pass: on the rows that
/// [`rope_forward`] stored, [`rope_backward`] gives back the rows that it loaded. Sine
/// and cosine are any functions with `cos² + sin² = 1`.
pub proof fn rope_backward_undoes_forward(
    pos: i32,
    bh: i32,
    head_dim: i32,
    n_ctx: i32,
    k: int,
    before: Model,
    after: Model,
)
    requires
        rope_launch(pos, bh, head_dim, n_ctx),
        0 <= k < head_dim as int / 2,
        (before.arg)(3) is Fin,
        after.arg == before.arg,
        after.exp == before.exp,
        after.sin == before.sin,
        after.cos == before.cos,
        forall|x: real|
            #![trigger (before.cos)(x)]
            prod((before.cos)(x), (before.cos)(x)) + prod((before.sin)(x), (before.sin)(x)) == 1real,
        ({
            let row = rope_row(pos as int, bh as int, head_dim as int, n_ctx as int);
            let cells = rope_cells(pos as int, bh as int, head_dim as int, n_ctx as int);
            forall|o: int|
                row <= o < row + 2 * (head_dim as int / 2) ==> Value::Fin(
                    #[trigger] (after.load)(0, o),
                ) == eval(cells[(1, o)], before)
        }),
    ensures
        ({
            let row = rope_row(pos as int, bh as int, head_dim as int, n_ctx as int);
            let cells = rope_backward_cells(pos as int, bh as int, head_dim as int, n_ctx as int);
            &&& eval(cells[(1, row + 2 * k)], after) == Value::Fin((before.load)(0, row + 2 * k))
            &&& eval(cells[(1, row + 2 * k + 1)], after) == Value::Fin(
                (before.load)(0, row + 2 * k + 1),
            )
        }),
{
    lemma_rope_launch(pos, bh, head_dim, n_ctx);
    let row = rope_row(pos as int, bh as int, head_dim as int, n_ctx as int);
    let angle = rope_angle(pos as int, k, head_dim as int);
    lemma_angle_value(pos, k, head_dim, before);
    lemma_angle_value(pos, k, head_dim, after);
    lemma_same_angle(pos, k, head_dim, before, after);
    let t = angle_value(pos as int, k, head_dim as int, before);
    let c = (before.cos)(t);
    let s = (before.sin)(t);
    let ex = at(0, row + 2 * k);
    let ey = at(0, row + 2 * k + 1);
    let x = (before.load)(0, row + 2 * k);
    let y = (before.load)(0, row + 2 * k + 1);
    let u = (after.load)(0, row + 2 * k);
    let v = (after.load)(0, row + 2 * k + 1);
    assert(u == prod(x, c) - prod(y, s)) by {
        assert(eval(ex, before) == Value::Fin(x));
        assert(eval(ey, before) == Value::Fin(y));
        assert(eval(angle.apply(UnOp::Cos), before) == Value::Fin(c));
        assert(eval(angle.apply(UnOp::Sin), before) == Value::Fin(s));
        assert(eval(ex.times(angle.apply(UnOp::Cos)), before) == Value::Fin(prod(x, c)));
        assert(eval(ey.times(angle.apply(UnOp::Sin)), before) == Value::Fin(prod(y, s)));
        assert(eval(rotated_even(ex, ey, angle), before) == Value::Fin(prod(x, c) - prod(y, s)));
    }
    assert(v == prod(x, s) + prod(y, c)) by {
        assert(eval(ex, before) == Value::Fin(x));
        assert(eval(ey, before) == Value::Fin(y));
        assert(eval(angle.apply(UnOp::Cos), before) == Value::Fin(c));
        assert(eval(angle.apply(UnOp::Sin), before) == Value::Fin(s));
        assert(eval(ex.times(angle.apply(UnOp::Sin)), before) == Value::Fin(prod(x, s)));
        assert(eval(ey.times(angle.apply(UnOp::Cos)), before) == Value::Fin(prod(y, c)));
        assert(eval(rotated_odd(ex, ey, angle), before) == Value::Fin(prod(x, s) + prod(y, c)));
    }
    assert(eval(ex, after) == Value::Fin(u));
    assert(eval(ey, after) == Value::Fin(v));
    assert(eval(angle.apply(UnOp::Cos), after) == Value::Fin(c));
    assert(eval(angle.apply(UnOp::Sin), after) == Value::Fin(s));
    assert(eval(ex.times(angle.apply(UnOp::Cos)), after) == Value::Fin(prod(u, c)));
    assert(eval(ey.times(angle.apply(UnOp::Sin)), after) == Value::Fin(prod(v, s)));
    assert(eval(unrotated_even(ex, ey, angle), after) == Value::Fin(prod(u, c) + prod(v, s)));
    assert(eval(ex.apply(UnOp::Neg), after) == Value::Fin(-u));
    assert(eval(ex.apply(UnOp::Neg).times(angle.apply(UnOp::Sin)), after) == Value::Fin(prod(-u, s)));
    assert(eval(ey.times(angle.apply(UnOp::Cos)), after) == Value::Fin(prod(v, c)));
    assert(eval(unrotated_odd(ex, ey, angle), after) == Value::Fin(prod(-u, s) + prod(v, c)));
    lemma_rotation(x, y, c, s, u, v);
}

/// Angles do not depend on memory.
proof fn lemma_same_angle(pos: i32, k: int, head_dim: i32, a: Model, b: Model)
    requires
        a.arg == b.arg,
        a.exp == b.exp,
    ensures
        eval(rope_angle(pos as int, k, head_dim as int), a) == eval(
            rope_angle(pos as int, k, head_dim as int),
            b,
        ),
{
    let c = Expr::Const(F32_MINUS_TWO);
    let lnb = Expr::Arg(3);
    let n = Expr::Int(head_dim);
    let rate = c.times(lnb).over(n);
    assert(eval(c, a) == eval(c, b));
    assert(eval(lnb, a) == eval(lnb, b));
    assert(eval(n, a) == eval(n, b));
    assert(eval(c.times(lnb), a) == eval(c.times(lnb), b));
    assert(eval(rate, a) == eval(rate, b));
    let step = Expr::Int(k as i32);
    assert(eval(step, a) == eval(step, b));
    assert(eval(step.times(rate), a) == eval(step.times(rate), b));
    assert(eval(step.times(rate).apply(UnOp::Exp), a) == eval(
        step.times(rate).apply(UnOp::Exp),
        b,
    ));
    assert(eval(Expr::Int(pos), a) == eval(Expr::Int(pos), b));
}

// ---------------------------------------------------------------------------
// Runtime op
// ---------------------------------------------------------------------------
/// The forward kernel with its compile-time head dimension.
#[derive(Clone, Copy, Debug, PartialEq, Eq, Structural)]
pub struct RopeForward {
    pub head_dim: i32,
}

/// Runtime op: the forward kernel and the base frequency that its launch needs.
/// The backward kernel shares the head dimension of the forward one.
#[derive(Clone, Copy, Debug, PartialEq, Eq, Structural)]
pub struct RopeRtOp {
    pub forward: RopeForward,
    pub rope_base: F32Bits,
}

impl RopeRtOp {
    pub fn new(head_dim: i32, rope_base: F32Bits) -> (r: Self)
        ensures
            r == (RopeRtOp { forward: RopeForward { head_dim }, rope_base }),
    {
        RopeRtOp { forward: RopeForward { head_dim }, rope_base }
    }

    /// The kernel of the backward pass.
    pub fn backward_kernel(&self) -> (k: KernelId)
        ensures
            k == (KernelId::RopeBackward { head_dim: self.forward.head_dim }),
    {
        KernelId::RopeBackward { head_dim: self.forward.head_dim }
    }

    pub fn n_activation_inputs(&self) -> (n: usize)
        ensures
            n == 1,
    {
        1
    }

    /// No parameter buffers.
    pub fn param_shapes(&self) -> (shapes: Vec<Vec<usize>>)
        ensures
            shapes@.len() == 0,
    {
        Vec::new()
    }

    /// Arguments `(x, y, n_ctx, ln(rope_base))`; `output_shape` is `[BH, N_CTX, HEAD_DIM]`.
    pub fn pack_args(&self, output_shape: &[usize]) -> (args: Vec<KernelArg>)
        requires
            output_shape@.len() >= 2,
        ensures
            args@ == seq![
                KernelArg::Ptr(Slot::Input(0)),
                KernelArg::Ptr(Slot::Output),
                KernelArg::I32(low_i32(output_shape@[1] as int) as i32),
                KernelArg::LnF32(self.rope_base),
            ],
    {
        let n_ctx: i32 = to_i32(output_shape[1]);
        vec![
            KernelArg::Ptr(Slot::Input(0)),
            KernelArg::Ptr(Slot::Output),
            KernelArg::I32(n_ctx),
            KernelArg::LnF32(self.rope_base),
        ]
    }

    pub fn block(&self) -> (b: Dim3)
        ensures
            b == block_dim(),
    {
        Dim3 { x: 128, y: 1, z: 1 }
    }

    /// One block per `(position, batch-head)` pair.
    pub fn grid(&self, output_shape: &[usize]) -> (g: Dim3)
        requires
            output_shape@.len() >= 2,
        ensures
            g.x == low_u32(output_shape@[1] as int),
            g.y == low_u32(output_shape@[0] as int),
            g.z == 1,
    {
        Dim3 { x: to_u32(output_shape[1]), y: to_u32(output_shape[0]), z: 1 }
    }

    pub fn has_backward(&self) -> (b: bool)
        ensures
            b,
    {
        true
    }

    /// Arguments `(dy, dx, n_ctx, ln(rope_base))`.
    pub fn pack_backward_args(&self, output_shape: &[usize]) -> (args: Vec<KernelArg>)
        requires
            output_shape@.len() >= 2,
        ensures
            args@ == seq![
                KernelArg::Ptr(Slot::GradOutput),
                KernelArg::Ptr(Slot::GradInput(0)),
                KernelArg::I32(low_i32(output_shape@[1] as int) as i32),
                KernelArg::LnF32(self.rope_base),
            ],
    {
        let n_ctx: i32 = to_i32(output_shape[1]);
        vec![
            KernelArg::Ptr(Slot::GradOutput),
            KernelArg::Ptr(Slot::GradInput(0)),
            KernelArg::I32(n_ctx),
            KernelArg::LnF32(self.rope_base),
        ]
    }

    pub fn backward_block(&self) -> (b: Dim3)
        ensures
            b == block_dim(),
    {
        Dim3 { x: 128, y: 1, z: 1 }
    }

    pub fn backward_grid(&self, output_shape: &[usize]) -> (g: Dim3)
        requires
            output_shape@.len() >= 2,
        ensures
            g.x == low_u32(output_shape@[1] as int),
            g.y == low_u32(output_shape@[0] as int),
            g.z == 1,
    {
        self.grid(output_shape)
    }
}

/// Graph node of the rotation. Input and output are `[BH, N_CTX, HEAD_DIM]`.
#[derive(Clone, Copy, Debug, PartialEq, Eq, Structural)]
pub struct RopeOp {
    pub head_dim: i32,
    pub rope_base: F32Bits,
}

/// The graph node for a head dimension and a base frequency.
pub open spec fn rope_op(head_dim: usize, rope_base: F32Bits) -> RopeOp {
    RopeOp { head_dim: low_i32(head_dim as int) as i32, rope_base }
}

impl RopeOp {
    pub fn new(head_dim: usize, rope_base: F32Bits) -> (r: Self)
        ensures
            r == rope_op(head_dim, rope_base),
    {
        RopeOp { head_dim: to_i32(head_dim), rope_base }
    }

    pub fn custom_data(head_dim: usize, rope_base: F32Bits) -> (r: CustomOp)
        ensures
            r == CustomOp::Rope(rope_op(head_dim, rope_base)),
    {
        CustomOp::Rope(Self::new(head_dim, rope_base))
    }

    pub fn name(&self) -> (s: &'static str)
        ensures
            s@ == "rope"@,
    {
        "rope"
    }

    /// The shape of the input.
    pub fn infer_output_shape(&self, input_shapes: &[&Shape]) -> (out: Shape)
        requires
            input_shapes@.len() >= 1,
        ensures
            out@ == input_shapes@[0]@,
    {
        copy_shape(input_shapes[0])
    }

    pub fn lower(&self) -> (l: Lowered)
        ensures
            l.kernel == (KernelId::RopeForward { head_dim: self.head_dim }),
            l.runtime_op == RuntimeOp::Rope(
                RopeRtOp {
                    forward: RopeForward { head_dim: self.head_dim },
                    rope_base: self.rope_base,
                },
            ),
    {
        let rop = RopeRtOp::new(self.head_dim, self.rope_base);
        Lowered {
            kernel: KernelId::RopeForward { head_dim: rop.forward.head_dim },
            runtime_op: RuntimeOp::Rope(rop),
        }
    }

    pub fn lower_backward(&self) -> (k: KernelId)
        ensures
            k == (KernelId::RopeBackward { head_dim: self.head_dim }),
    {
        KernelId::RopeBackward { head_dim: self.head_dim }
    }
}

} // verus!
