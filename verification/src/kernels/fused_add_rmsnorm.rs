//! Fused residual-add + RMSNorm.
//!
//! Computes `h = x + residual` and RMS-normalises `h` in one pass over the row.
//! `x` and `residual` are `[M, N]` row-major, one block per row.
//!
//! **Forward outputs**
//! - `y`    the normalised result `h / rms(h) * γ` (`[M, N]`)
//! - `h`    the updated residual `x + residual` (`[M, N]`), saved for backward
//! - `rstd` the reciprocal `1 / rms(h)` (`[M]`), saved for backward

use vstd::prelude::*;

use crate::cast::{low_i32, low_u32, to_i32, to_u32};
use crate::graph::{copy_shape, CustomOp, Shape};
use crate::ieee::{F32Bits, F32_ONE};
use crate::kernels::exact::{
    accumulated, added, each_once, eval, lemma_accumulated, lemma_one_value, lemma_tiled_sum,
    lemma_total_eq, lemma_zero_value, same_inputs, total, Model, Value,
};
use crate::kernels::launch::{block_dim, Dim3, KernelArg, KernelId, Lowered, RuntimeOp, Slot};
use crate::kernels::reals::{lemma_prod_zero, prod, quot};
use crate::kernels::tile::{
    at, filled, tile_full, tile_sum, tile_zip, tiled_sum, tiles_in, with_run, with_run_added, zero, BinOp, Expr,
    Tile, Trace, TraceView, UnOp,
};

verus! {

// ---------------------------------------------------------------------------
// Forward kernel
// ---------------------------------------------------------------------------
/// Row `row` is a block of the grid `(m, 1, 1)`, the matrices have no more cells than
/// an offset can name, and neither do the columns of the last tile.
pub open spec fn rmsnorm_launch(row: i32, block_n: i32, m: i32, n: i32) -> bool {
    &&& 0 <= row < m
    &&& 0 < block_n
    &&& 0 <= n
    &&& m * n <= i32::MAX
    &&& n + block_n <= i32::MAX
}

/// `h = x + residual`, column `c` of a row.
pub open spec fn hidden(row: int, n: int, c: int) -> Expr {
    at(0, row * n + c).plus(at(1, row * n + c))
}

/// `h²` in the lane of column `c` of a tile, whose lanes beyond the row are zero.
pub open spec fn squared_lane(row: int, n: int, c: int) -> Expr {
    let h = if c < n {
        hidden(row, n, c)
    } else {
        zero().plus(zero())
    };
    h.times(h)
}

/// The running sum of squares after `tiles` tiles.
pub open spec fn squares(row: int, n: int, block_n: int, tiles: nat) -> Expr {
    tiled_sum(|c: int| squared_lane(row, n, c), block_n, tiles)
}

/// `1 / N`, converted to the element type.
pub open spec fn inverse_width(n: int) -> Expr {
    Expr::Const(F32_ONE).over(Expr::Int(n as i32)).apply(UnOp::Cast)
}

/// `1 / √(mean(h²) + eps)` for the sum of squares `sq`.
pub open spec fn rstd_of(sq: Expr, n: int) -> Expr {
    sq.times(inverse_width(n)).plus(Expr::Arg(8).apply(UnOp::Cast)).apply(UnOp::Rsqrt)
}

/// The reciprocal standard deviation of a row.
pub open spec fn row_rstd(row: int, n: int, block_n: int) -> Expr {
    rstd_of(squares(row, n, block_n, tiles_in(n, block_n)), n)
}

/// The updated residual, the first `end` columns.
pub open spec fn hidden_run(row: int, n: int, end: int) -> Map<(int, int), Expr> {
    with_run(Map::empty(), 3, row * n, Seq::new(end as nat, |c: int| hidden(row, n, c)))
}

/// What block `row` of [`fused_add_rmsnorm_forward`] stores: the updated residual in
/// buffer 3, the reciprocal standard deviation in buffer 4, and the first `end`
/// columns of the normalised row in buffer 2.
pub open spec fn fused_cells(row: int, n: int, block_n: int, end: int) -> Map<(int, int), Expr> {
    let rstd = row_rstd(row, n, block_n);
    with_run(
        with_run(hidden_run(row, n, n), 4, row, seq![rstd]),
        2,
        row * n,
        Seq::new(end as nat, |c: int| hidden(row, n, c).times(rstd).times(at(5, c))),
    )
}

/// The offsets of a row fit.
proof fn lemma_rmsnorm_launch(row: i32, block_n: i32, m: i32, n: i32)
    requires
        rmsnorm_launch(row, block_n, m, n),
    ensures
        0 <= row * n,
        row * n + n <= i32::MAX,
{
    assert(0 <= row * n && (row + 1) * n <= m * n) by (nonlinear_arith)
        requires
            0 <= row < m,
            0 <= n,
    ;
    assert((row + 1) * n == row * n + n) by (nonlinear_arith);
}

/// A loop over tiles ends after [`tiles_in`] of them.
proof fn lemma_tiles_in(n: int, block_n: int, tiles: int)
    requires
        0 <= n,
        0 < block_n,
        n <= tiles * block_n < n + block_n,
        0 <= tiles,
    ensures
        tiles_in(n, block_n) == tiles,
{
    vstd::arithmetic::div_mod::lemma_fundamental_div_mod_converse(
        n + block_n - 1,
        block_n,
        tiles,
        n + block_n - 1 - tiles * block_n,
    );
}

/// The first tile of the next one.
proof fn lemma_next_tile(tiles: nat, block_n: int)
    ensures
        (tiles + 1) * block_n == tiles * block_n + block_n,
{
    assert((tiles + 1) * block_n == tiles * block_n + block_n) by (nonlinear_arith);
}

/// `1 / N` as a one-lane tile.
fn inverse_width_tile(n: i32) -> (r: Expr)
    ensures
        r == inverse_width(n as int),
{
    Expr::Un(
        UnOp::Cast,
        Box::new(
            Expr::Bin(BinOp::Div, Box::new(Expr::Const(F32_ONE)), Box::new(Expr::Int(n))),
        ),
    )
}

/// Fused residual-add + RMSNorm forward, one block: one row.
///
/// Arguments: `x` (0), `residual` (1), `y` (2), `h` (3), `rstd` (4), `weight` (5),
/// `M` (6), `N` (7), `eps` (8).
pub fn fused_add_rmsnorm_forward(row: i32, block_n: i32, m: i32, n: i32) -> (t: Trace)
    requires
        rmsnorm_launch(row, block_n, m, n),
    ensures
        t@ == (TraceView {
            stores: fused_cells(row as int, n as int, block_n as int, n as int),
            adds: Map::empty(),
        }),
{
    proof {
        lemma_rmsnorm_launch(row, block_n, m, n);
    }
    let ghost (r, w, b) = (row as int, n as int, block_n as int);
    let row_start: i32 = row * n;
    let n_inv: Expr = inverse_width_tile(n);

    // Pass 1: compute h = x + residual; accumulate Σ h²
    let mut t = Trace::new();
    let mut sq_sum: Expr = Expr::Const(0);
    let mut n_start: i32 = 0;
    let ghost mut tiles: nat = 0;
    assert(t@.stores =~= hidden_run(r, w, 0));
    while n_start < n
        invariant
            rmsnorm_launch(row, block_n, m, n),
            (r, w, b) == (row as int, n as int, block_n as int),
            row_start == row * n,
            0 <= row_start,
            row_start + n <= i32::MAX,
            0 <= n_start < n + block_n,
            n_start == tiles * block_n,
            sq_sum == squares(r, w, b, tiles),
            t@.stores == hidden_run(
                r,
                w,
                if n_start < n {
                    n_start as int
                } else {
                    w
                },
            ),
            t@.adds == Map::<(int, int), Expr>::empty(),
        decreases n + block_n - n_start,
    {
        let xi: Tile = t.load_masked(0, row_start, n_start, n, block_n);
        let ri: Tile = t.load_masked(1, row_start, n_start, n, block_n);
        let hi: Tile = tile_zip(BinOp::Add, &xi, &ri);

        t.store_masked(3, row_start, n_start, n, &hi);
        let sq: Tile = tile_zip(BinOp::Mul, &hi, &hi);
        sq_sum = Expr::Bin(BinOp::Add, Box::new(sq_sum), Box::new(tile_sum(&sq)));
        proof {
            let end = if n_start + block_n < n {
                n_start + block_n
            } else {
                w
            };
            assert forall|i: int| 0 <= i < block_n implies #[trigger] hi@[i] == (if n_start + i
                < n {
                hidden(r, w, n_start + i)
            } else {
                zero().plus(zero())
            }) by {
                assert(xi@[i] == (if n_start + i < n {
                    at(0, row_start + n_start + i)
                } else {
                    zero()
                }));
                assert(ri@[i] == (if n_start + i < n {
                    at(1, row_start + n_start + i)
                } else {
                    zero()
                }));
            }
            assert(t@.stores =~= hidden_run(r, w, end));
            let lane = |c: int| squared_lane(r, w, c);
            assert(sq@ =~= Seq::new(block_n as nat, |i: int| lane(tiles * block_n + i)));
            lemma_next_tile(tiles, b);
            tiles = tiles + 1;
        }
        n_start = n_start + block_n;
    }
    proof {
        lemma_tiles_in(w, b, tiles as int);
    }
    let eps_t: Expr = Expr::Un(UnOp::Cast, Box::new(Expr::Arg(8)));
    let mean: Expr = Expr::Bin(BinOp::Mul, Box::new(sq_sum), Box::new(n_inv));
    let rstd_1: Expr = Expr::Un(
        UnOp::Rsqrt,
        Box::new(Expr::Bin(BinOp::Add, Box::new(mean), Box::new(eps_t))),
    );
    let rstd: Tile = tile_full(block_n as usize, &rstd_1);
    let one_lane: Tile = tile_full(1, &rstd_1);
    assert(one_lane@ =~= seq![row_rstd(r, w, b)]);
    t.store_row(4, row, &one_lane);

    // Pass 2: y = h * rstd * γ
    n_start = 0;
    assert(t@.stores =~= fused_cells(r, w, b, 0));
    while n_start < n
        invariant
            rmsnorm_launch(row, block_n, m, n),
            (r, w, b) == (row as int, n as int, block_n as int),
            row_start == row * n,
            0 <= row_start,
            row_start + n <= i32::MAX,
            0 <= n_start < n + block_n,
            rstd@ == filled(block_n as nat, row_rstd(r, w, b)),
            t@.stores == fused_cells(
                r,
                w,
                b,
                if n_start < n {
                    n_start as int
                } else {
                    w
                },
            ),
            t@.adds == Map::<(int, int), Expr>::empty(),
        decreases n + block_n - n_start,
    {
        let hi: Tile = t.load_masked(3, row_start, n_start, n, block_n);
        let wi: Tile = t.load_masked(5, 0, n_start, n, block_n);

        let yi: Tile = tile_zip(BinOp::Mul, &tile_zip(BinOp::Mul, &hi, &rstd), &wi);
        let ghost before = t@.stores;
        t.store_masked(2, row_start, n_start, n, &yi);
        proof {
            let end = if n_start + block_n < n {
                n_start + block_n
            } else {
                w
            };
            assert forall|i: int| 0 <= i < end - n_start implies #[trigger] yi@[i] == hidden(
                r,
                w,
                n_start + i,
            ).times(row_rstd(r, w, b)).times(at(5, n_start + i)) by {
                assert(before.dom().contains((3, row_start + n_start + i)));
                assert(hi@[i] == hidden(r, w, n_start + i));
                assert(wi@[i] == at(5, n_start + i));
            }
            assert(t@.stores =~= fused_cells(r, w, b, end));
        }
        n_start = n_start + block_n;
    }
    t
}

// ---------------------------------------------------------------------------
// Backward kernel
// ---------------------------------------------------------------------------
/// `dy · γ · h` in the lane of column `c` of a tile, whose lanes beyond the row are
/// zero.
pub open spec fn dot_lane(row: int, n: int, c: int) -> Expr {
    if c < n {
        at(0, row * n + c).times(at(5, c)).times(at(1, row * n + c))
    } else {
        zero().times(zero()).times(zero())
    }
}

/// The running sum of `dy · γ · h` after `tiles` tiles.
pub open spec fn dots(row: int, n: int, block_n: int, tiles: nat) -> Expr {
    tiled_sum(|c: int| dot_lane(row, n, c), block_n, tiles)
}

/// `dx[c] = rstd · γ[c] · (dy[c] − h[c] · rstd² · dot)` with
/// `dot = (1/N) Σ dy · γ · h`.
pub open spec fn input_gradient(row: int, n: int, block_n: int, c: int) -> Expr {
    let rstd = at(6, row);
    let dot = dots(row, n, block_n, tiles_in(n, block_n)).times(inverse_width(n));
    let correction = at(1, row * n + c).times(rstd.times(rstd)).times(dot);
    rstd.times(at(5, c)).times(at(0, row * n + c).minus(correction))
}

/// The term of a row in the weight gradient: `dy[c] · h[c] · rstd`.
pub open spec fn weight_gradient(row: int, n: int, c: int) -> Expr {
    at(0, row * n + c).times(at(1, row * n + c)).times(at(6, row))
}

/// What block `row` of [`fused_add_rmsnorm_backward`] stores, the first `end` columns:
/// the gradients of both inputs, which are equal, in buffers 2 and 3.
pub open spec fn fused_backward_cells(row: int, n: int, block_n: int, end: int) -> Map<
    (int, int),
    Expr,
> {
    let dx = Seq::new(end as nat, |c: int| input_gradient(row, n, block_n, c));
    with_run(with_run(Map::empty(), 2, row * n, dx), 3, row * n, dx)
}

/// What block `row` of [`fused_add_rmsnorm_backward`] adds, the first `end` columns:
/// the terms of its row in the weight gradient, to buffer 4.
pub open spec fn fused_backward_adds(row: int, n: int, end: int) -> Map<(int, int), Expr> {
    with_run(Map::empty(), 4, 0, Seq::new(end as nat, |c: int| weight_gradient(row, n, c)))
}

/// Fused residual-add + RMSNorm backward, one block: one row.
///
/// Arguments: `dy` (0), `h` (1), `dx` (2), `dresidual` (3), `dweight` (4), `weight`
/// (5), `rstd` (6), `M` (7), `N` (8). Rows share the weight gradient, so its terms are
/// added atomically.
pub fn fused_add_rmsnorm_backward(row: i32, block_n: i32, m: i32, n: i32) -> (t: Trace)
    requires
        rmsnorm_launch(row, block_n, m, n),
    ensures
        t@ == (TraceView {
            stores: fused_backward_cells(row as int, n as int, block_n as int, n as int),
            adds: fused_backward_adds(row as int, n as int, n as int),
        }),
{
    proof {
        lemma_rmsnorm_launch(row, block_n, m, n);
    }
    let ghost (r, w, b) = (row as int, n as int, block_n as int);
    let row_start: i32 = row * n;
    let n_inv: Expr = inverse_width_tile(n);

    let mut t = Trace::new();
    let rstd_row: Tile = t.load_row(6, row, 1);
    let rstd_1: Expr = rstd_row[0].dup();
    assert(rstd_1 == at(6, r));
    let rstd: Tile = tile_full(block_n as usize, &rstd_1);

    // Pass 1: Σ dy · γ · h
    let mut dot: Expr = Expr::Const(0);
    let mut n_start: i32 = 0;
    let ghost mut tiles: nat = 0;
    while n_start < n
        invariant
            rmsnorm_launch(row, block_n, m, n),
            (r, w, b) == (row as int, n as int, block_n as int),
            row_start == row * n,
            0 <= row_start,
            row_start + n <= i32::MAX,
            0 <= n_start < n + block_n,
            n_start == tiles * block_n,
            dot == dots(r, w, b, tiles),
            t@ == (TraceView { stores: Map::empty(), adds: Map::empty() }),
        decreases n + block_n - n_start,
    {
        let dy: Tile = t.load_masked(0, row_start, n_start, n, block_n);
        let hi: Tile = t.load_masked(1, row_start, n_start, n, block_n);
        let wi: Tile = t.load_masked(5, 0, n_start, n, block_n);
        let terms: Tile = tile_zip(BinOp::Mul, &tile_zip(BinOp::Mul, &dy, &wi), &hi);
        dot = Expr::Bin(BinOp::Add, Box::new(dot), Box::new(tile_sum(&terms)));
        proof {
            let lane = |c: int| dot_lane(r, w, c);
            assert(terms@ =~= Seq::new(block_n as nat, |i: int| lane(tiles * block_n + i)));
            lemma_next_tile(tiles, b);
            tiles = tiles + 1;
        }
        n_start = n_start + block_n;
    }
    proof {
        lemma_tiles_in(w, b, tiles as int);
    }

    let rstd_sq_1: Expr = Expr::Bin(BinOp::Mul, Box::new(rstd_1.dup()), Box::new(rstd_1));
    let rstd_sq: Tile = tile_full(block_n as usize, &rstd_sq_1);
    let scale_1: Expr = Expr::Bin(BinOp::Mul, Box::new(dot), Box::new(n_inv));
    let scale: Tile = tile_full(block_n as usize, &scale_1);

    // Pass 2: dx, dresidual, dweight
    n_start = 0;
    assert(t@.stores =~= fused_backward_cells(r, w, b, 0));
    assert(t@.adds =~= fused_backward_adds(r, w, 0));
    while n_start < n
        invariant
            rmsnorm_launch(row, block_n, m, n),
            (r, w, b) == (row as int, n as int, block_n as int),
            row_start == row * n,
            0 <= row_start,
            row_start + n <= i32::MAX,
            0 <= n_start < n + block_n,
            rstd@ == filled(block_n as nat, at(6, r)),
            rstd_sq@ == filled(block_n as nat, at(6, r).times(at(6, r))),
            scale@ == filled(
                block_n as nat,
                dots(r, w, b, tiles_in(w, b)).times(inverse_width(w)),
            ),
            t@.stores == fused_backward_cells(
                r,
                w,
                b,
                if n_start < n {
                    n_start as int
                } else {
                    w
                },
            ),
            t@.adds == fused_backward_adds(
                r,
                w,
                if n_start < n {
                    n_start as int
                } else {
                    w
                },
            ),
        decreases n + block_n - n_start,
    {
        let ghost before = t@;
        let dy: Tile = t.load_masked(0, row_start, n_start, n, block_n);
        let hi: Tile = t.load_masked(1, row_start, n_start, n, block_n);
        let wi: Tile = t.load_masked(5, 0, n_start, n, block_n);

        let correction: Tile = tile_zip(
            BinOp::Mul,
            &tile_zip(BinOp::Mul, &hi, &rstd_sq),
            &scale,
        );
        let grad: Tile = tile_zip(
            BinOp::Mul,
            &tile_zip(BinOp::Mul, &rstd, &wi),
            &tile_zip(BinOp::Sub, &dy, &correction),
        );
        let dw: Tile = tile_zip(BinOp::Mul, &tile_zip(BinOp::Mul, &dy, &hi), &rstd);
        t.store_masked(2, row_start, n_start, n, &grad);
        t.store_masked(3, row_start, n_start, n, &grad);
        t.add_masked(4, 0, n_start, n, &dw);
        proof {
            let end = if n_start + block_n < n {
                n_start + block_n
            } else {
                w
            };
            let len = end - n_start;
            assert forall|i: int| 0 <= i < len implies #[trigger] grad@[i] == input_gradient(
                r,
                w,
                b,
                n_start + i,
            ) && dw@[i] == weight_gradient(r, w, n_start + i) by {
                assert(dy@[i] == at(0, row_start + n_start + i));
                assert(hi@[i] == at(1, row_start + n_start + i));
                assert(wi@[i] == at(5, n_start + i));
            }
            assert(t@.stores == with_run(
                with_run(before.stores, 2, row_start + n_start, grad@.take(len)),
                3,
                row_start + n_start,
                grad@.take(len),
            )) by {
                assert(grad@.take(grad@.len() as int) =~= grad@);
            }
            assert(t@.adds == with_run_added(before.adds, 4, n_start as int, dw@.take(len))) by {
                assert(dw@.take(dw@.len() as int) =~= dw@);
            }
            assert(t@.stores =~= fused_backward_cells(r, w, b, end));
            assert(t@.adds =~= fused_backward_adds(r, w, end));
        }
        n_start = n_start + block_n;
    }
    t
}

/// Launches set every cell of their row-wise outputs once: cell `[r, c]` of the
/// normalised rows, of the residual and of the input gradients, and cell `[r]` of the
/// reciprocal deviations, are set by block `r` and no other.
pub proof fn rmsnorm_sets_every_cell(r: int, c: int, row: int, n: int, block_n: int)
    requires
        0 <= c < n,
    ensures
        ({
            let forward = fused_cells(row, n, block_n, n).dom();
            let backward = fused_backward_cells(row, n, block_n, n).dom();
            &&& forward.contains((2, r * n + c)) <==> row == r
            &&& forward.contains((3, r * n + c)) <==> row == r
            &&& forward.contains((4, r)) <==> row == r
            &&& backward.contains((2, r * n + c)) <==> row == r
            &&& backward.contains((3, r * n + c)) <==> row == r
        }),
{
    if row < r {
        assert(row * n + n <= r * n) by (nonlinear_arith)
            requires
                row + 1 <= r,
                n > 0,
        ;
    } else if r < row {
        assert(r * n + n <= row * n) by (nonlinear_arith)
            requires
                r + 1 <= row,
                n > 0,
        ;
    }
}

// ---------------------------------------------------------------------------
// In exact arithmetic
// ---------------------------------------------------------------------------
/// `h = x + residual`, column `c` of a row.
pub open spec fn hidden_value(row: int, n: int, c: int, m: Model) -> real {
    (m.load)(0, row * n + c) + (m.load)(1, row * n + c)
}

/// `(1/N) Σ h²`.
pub open spec fn mean_square(row: int, n: int, m: Model) -> real {
    prod(
        total(
            n as nat,
            |c: int| prod(hidden_value(row, n, c, m), hidden_value(row, n, c, m)),
        ),
        quot(1real, n as real),
    )
}

/// `1 / N` has the value that it says.
proof fn lemma_inverse_width(n: i32, m: Model)
    requires
        0 < n,
    ensures
        eval(inverse_width(n as int), m) == Value::Fin(quot(1real, n as real)),
{
    let one = Expr::Const(F32_ONE);
    let width = Expr::Int(n);
    lemma_one_value(m);
    assert(eval(width, m) == Value::Fin(n as real));
    assert(eval(one.over(width), m) == Value::Fin(quot(1real, n as real)));
}

/// Accumulating tile by tile gives the sum of squares of the row.
proof fn lemma_squares(row: i32, block_n: i32, rows: i32, n: i32, m: Model)
    requires
        rmsnorm_launch(row, block_n, rows, n),
    ensures
        eval(
            squares(row as int, n as int, block_n as int, tiles_in(n as int, block_n as int)),
            m,
        ) == Value::Fin(
            total(
                n as nat,
                |c: int|
                    prod(
                        hidden_value(row as int, n as int, c, m),
                        hidden_value(row as int, n as int, c, m),
                    ),
            ),
        ),
{
    let (r, w, b) = (row as int, n as int, block_n as int);
    lemma_rmsnorm_launch(row, block_n, rows, n);
    lemma_tiles_cover(w, b);
    let lane = |c: int| squared_lane(r, w, c);
    let plain = |c: int| prod(hidden_value(r, w, c, m), hidden_value(r, w, c, m));
    let f = |c: int|
        if c < w {
            plain(c)
        } else {
            0real
        };
    lemma_zero_value(m);
    assert forall|c: int| 0 <= c implies eval(#[trigger] lane(c), m) == Value::Fin(f(c)) by {
        if c < w {
            let (x, y) = (at(0, r * w + c), at(1, r * w + c));
            assert(eval(x, m) == Value::Fin((m.load)(0, r * w + c)));
            assert(eval(y, m) == Value::Fin((m.load)(1, r * w + c)));
            assert(eval(x.plus(y), m) == Value::Fin(hidden_value(r, w, c, m)));
        } else {
            assert(eval(zero().plus(zero()), m) == Value::Fin(0real));
            lemma_prod_zero(0real);
        }
    }
    lemma_tiled_sum(lane, b, tiles_in(w, b), n as nat, m, f);
    lemma_total_eq(n as nat, f, plain);
}

/// The tiles of a loop cover the row.
proof fn lemma_tiles_cover(n: int, block_n: int)
    requires
        0 <= n,
        0 < block_n,
    ensures
        n <= tiles_in(n, block_n) * block_n,
{
    let q = (n + block_n - 1) / block_n;
    vstd::arithmetic::div_mod::lemma_fundamental_div_mod(n + block_n - 1, block_n);
    assert(block_n * q == q * block_n) by (nonlinear_arith);
    assert(q >= 0) by (nonlinear_arith)
        requires
            q == (n + block_n - 1) / block_n,
            n + block_n - 1 >= 0,
            block_n > 0,
    ;
}

/// The forward pass normalises by the root mean square of the whole row, whatever the
/// tile width: `rstd = 1/√(mean(h²) + eps)` and `y[c] = h[c] · rstd · γ[c]`.
pub proof fn forward_normalises(
    row: i32,
    block_n: i32,
    rows: i32,
    n: i32,
    c: int,
    eps: real,
    m: Model,
)
    requires
        rmsnorm_launch(row, block_n, rows, n),
        0 <= c < n,
        (m.arg)(8) == Value::Fin(eps),
        mean_square(row as int, n as int, m) + eps > 0real,
    ensures
        ({
            let (r, w) = (row as int, n as int);
            let cells = fused_cells(r, w, block_n as int, w);
            let h = hidden_value(r, w, c, m);
            let rstd = (m.rsqrt)(mean_square(r, w, m) + eps);
            &&& eval(cells[(3, r * w + c)], m) == Value::Fin(h)
            &&& eval(cells[(4, r)], m) == Value::Fin(rstd)
            &&& eval(cells[(2, r * w + c)], m) == Value::Fin(prod(prod(h, rstd), (m.load)(5, c)))
        }),
{
    let (r, w, b) = (row as int, n as int, block_n as int);
    lemma_rmsnorm_launch(row, block_n, rows, n);
    lemma_squares(row, block_n, rows, n, m);
    lemma_inverse_width(n, m);
    let sq = squares(r, w, b, tiles_in(w, b));
    let eps_t = Expr::Arg(8).apply(UnOp::Cast);
    assert(eval(Expr::Arg(8), m) == Value::Fin(eps));
    assert(eval(eps_t, m) == Value::Fin(eps));
    let mean = sq.times(inverse_width(w));
    assert(eval(mean, m) == Value::Fin(mean_square(r, w, m)));
    assert(eval(mean.plus(eps_t), m) == Value::Fin(mean_square(r, w, m) + eps));
    let rstd = row_rstd(r, w, b);
    assert(eval(rstd, m) == Value::Fin((m.rsqrt)(mean_square(r, w, m) + eps)));
    let (x, y) = (at(0, r * w + c), at(1, r * w + c));
    assert(eval(x, m) == Value::Fin((m.load)(0, r * w + c)));
    assert(eval(y, m) == Value::Fin((m.load)(1, r * w + c)));
    let h = hidden(r, w, c);
    assert(eval(h, m) == Value::Fin(hidden_value(r, w, c, m)));
    let weight = at(5, c);
    assert(eval(weight, m) == Value::Fin((m.load)(5, c)));
    assert(eval(h.times(rstd), m) is Fin);
    assert(eval(h.times(rstd).times(weight), m) is Fin);
}

/// `(1/N) Σ dy · γ · h`.
pub open spec fn mean_dot(row: int, n: int, m: Model) -> real {
    prod(
        total(
            n as nat,
            |c: int|
                prod(
                    prod((m.load)(0, row * n + c), (m.load)(5, c)),
                    (m.load)(1, row * n + c),
                ),
        ),
        quot(1real, n as real),
    )
}

/// Accumulating tile by tile gives the sum of `dy · γ · h` over the row.
proof fn lemma_dots(row: i32, block_n: i32, rows: i32, n: i32, m: Model)
    requires
        rmsnorm_launch(row, block_n, rows, n),
    ensures
        eval(
            dots(row as int, n as int, block_n as int, tiles_in(n as int, block_n as int)),
            m,
        ) == Value::Fin(
            total(
                n as nat,
                |c: int|
                    prod(
                        prod((m.load)(0, row * n + c), (m.load)(5, c)),
                        (m.load)(1, row * n + c),
                    ),
            ),
        ),
{
    let (r, w, b) = (row as int, n as int, block_n as int);
    lemma_rmsnorm_launch(row, block_n, rows, n);
    lemma_tiles_cover(w, b);
    let lane = |c: int| dot_lane(r, w, c);
    let plain = |c: int|
        prod(prod((m.load)(0, r * w + c), (m.load)(5, c)), (m.load)(1, r * w + c));
    let f = |c: int|
        if c < w {
            plain(c)
        } else {
            0real
        };
    lemma_zero_value(m);
    assert forall|c: int| 0 <= c implies eval(#[trigger] lane(c), m) == Value::Fin(f(c)) by {
        if c < w {
            let (x, y, z) = (at(0, r * w + c), at(5, c), at(1, r * w + c));
            assert(eval(x, m) == Value::Fin((m.load)(0, r * w + c)));
            assert(eval(y, m) == Value::Fin((m.load)(5, c)));
            assert(eval(z, m) == Value::Fin((m.load)(1, r * w + c)));
            assert(eval(x.times(y), m) is Fin);
        } else {
            lemma_prod_zero(0real);
            assert(eval(zero().times(zero()), m) == Value::Fin(0real));
        }
    }
    lemma_tiled_sum(lane, b, tiles_in(w, b), n as nat, m, f);
    lemma_total_eq(n as nat, f, plain);
}

/// The backward pass computes, whatever the tile width,
/// `dx[c] = rstd · γ[c] · (dy[c] − h[c] · rstd² · dot)` with
/// `dot = (1/N) Σ dy · γ · h` over the whole row, the same for both inputs, and adds
/// `dy[c] · h[c] · rstd` to the weight gradient of column `c`.
pub proof fn backward_gradients(row: i32, block_n: i32, rows: i32, n: i32, c: int, m: Model)
    requires
        rmsnorm_launch(row, block_n, rows, n),
        0 <= c < n,
    ensures
        ({
            let (r, w) = (row as int, n as int);
            let cells = fused_backward_cells(r, w, block_n as int, w);
            let rstd = (m.load)(6, r);
            let dy = (m.load)(0, r * w + c);
            let h = (m.load)(1, r * w + c);
            let dx = prod(
                prod(rstd, (m.load)(5, c)),
                dy - prod(prod(h, prod(rstd, rstd)), mean_dot(r, w, m)),
            );
            &&& eval(cells[(2, r * w + c)], m) == Value::Fin(dx)
            &&& eval(cells[(3, r * w + c)], m) == Value::Fin(dx)
            &&& eval(fused_backward_adds(r, w, w)[(4, c)], m) == Value::Fin(
                prod(prod(dy, h), rstd),
            )
        }),
{
    let (r, w, b) = (row as int, n as int, block_n as int);
    lemma_rmsnorm_launch(row, block_n, rows, n);
    lemma_dots(row, block_n, rows, n, m);
    lemma_inverse_width(n, m);
    let dot = dots(r, w, b, tiles_in(w, b));
    assert(eval(dot.times(inverse_width(w)), m) == Value::Fin(mean_dot(r, w, m)));
    let rstd = at(6, r);
    let weight = at(5, c);
    let dy = at(0, r * w + c);
    let h = at(1, r * w + c);
    assert(eval(rstd, m) == Value::Fin((m.load)(6, r)));
    assert(eval(weight, m) == Value::Fin((m.load)(5, c)));
    assert(eval(dy, m) == Value::Fin((m.load)(0, r * w + c)));
    assert(eval(h, m) == Value::Fin((m.load)(1, r * w + c)));
    assert(eval(rstd.times(rstd), m) is Fin);
    assert(eval(h.times(rstd.times(rstd)), m) is Fin);
    let correction = h.times(rstd.times(rstd)).times(dot.times(inverse_width(w)));
    assert(eval(correction, m) is Fin);
    assert(eval(dy.minus(correction), m) is Fin);
    assert(eval(rstd.times(weight), m) is Fin);
    assert(eval(input_gradient(r, w, b, c), m) is Fin);
    assert(eval(dy.times(h), m) is Fin);
    assert(eval(dy.times(h).times(rstd), m) is Fin);
}

/// The weight gradient is the total over rows: a cell of column `c` that held `before`
/// ends with `before + Σ_m dy[m, c] · h[m, c] · rstd[m]`, each row counted once. The
/// rows may run in any order and overlap: `order` is the order in which their terms
/// reach the cell, and `seen(r)` the memory that block `r` reads.
pub proof fn weight_gradient_total(
    rows: i32,
    n: i32,
    c: int,
    before: real,
    order: Seq<int>,
    seen: spec_fn(int) -> Model,
    m: Model,
)
    requires
        0 <= rows,
        0 <= c < n,
        rows * n <= i32::MAX,
        each_once(order, rows as nat),
        forall|r: int|
            0 <= r < rows ==> same_inputs(#[trigger] seen(r), m, set![0int, 1, 5, 6]),
    ensures
        accumulated(
            before,
            order,
            |r: int| added(fused_backward_adds(r, n as int, n as int), (4, c), seen(r)),
        ) == before + total(
            rows as nat,
            |r: int|
                prod(
                    prod((m.load)(0, r * n + c), (m.load)(1, r * n + c)),
                    (m.load)(6, r),
                ),
        ),
{
    let w = n as int;
    let f = |r: int| added(fused_backward_adds(r, w, w), (4, c), seen(r));
    let g = |r: int|
        prod(prod((m.load)(0, r * n + c), (m.load)(1, r * n + c)), (m.load)(6, r));
    assert forall|r: int| 0 <= r < rows implies f(r) == #[trigger] g(r) by {
        assert(0 <= r * w && r * w + w <= rows * w) by (nonlinear_arith)
            requires
                0 <= r < rows,
                0 <= w,
        ;
        let s = seen(r);
        let dy = at(0, r * w + c);
        let h = at(1, r * w + c);
        let rstd = at(6, r);
        assert(fused_backward_adds(r, w, w)[(4, c)] == dy.times(h).times(rstd));
        assert(eval(dy, s) == Value::Fin((s.load)(0, r * w + c)));
        assert(eval(h, s) == Value::Fin((s.load)(1, r * w + c)));
        assert(eval(rstd, s) == Value::Fin((s.load)(6, r)));
        assert(eval(dy.times(h), s) is Fin);
    }
    lemma_accumulated(before, order, rows as nat, f);
    lemma_total_eq(rows as nat, f, g);
}

// ---------------------------------------------------------------------------
// Runtime op
// ---------------------------------------------------------------------------
/// The forward kernel with its compile-time tile width.
#[derive(Clone, Copy, Debug, PartialEq, Eq, Structural)]
pub struct FusedAddRmsnormForward {
    pub block_n: i32,
}

/// Runtime op: the forward kernel and the stability constant of its launch.
///
/// Parameter slot 0 is the weight `γ`. Slots 1 and 2 are the caches of `h` and
/// `rstd`, written by the forward kernel and read by the backward kernel; they are
/// allocated, never loaded.
#[derive(Clone, Copy, Debug, PartialEq, Eq, Structural)]
pub struct FusedAddRmsnormRtOp {
    pub forward: FusedAddRmsnormForward,
    pub eps: F32Bits,
}

impl FusedAddRmsnormRtOp {
    pub fn n_activation_inputs(&self) -> (n: usize)
        ensures
            n == 2,
    {
        2
    }

    /// `[weight [N], h_cache [M, N], rstd_cache [M]]` for an output `[M, N]`.
    pub fn param_shapes(&self, output_shape: &[usize]) -> (shapes: Vec<Vec<usize>>)
        requires
            output_shape@.len() >= 2,
        ensures
            shapes@.len() == 3,
            shapes@[0]@ == seq![output_shape@[1]],
            shapes@[1]@ == seq![output_shape@[0], output_shape@[1]],
            shapes@[2]@ == seq![output_shape@[0]],
    {
        let m: usize = output_shape[0];
        let n: usize = output_shape[1];
        vec![vec![n], vec![m, n], vec![m]]
    }

    /// Only slot 0 is loadable.
    pub fn param_names(&self) -> (names: &'static [&'static str])
        ensures
            names@.len() == 1,
            names@[0]@ == "weight"@,
    {
        &["weight"]
    }

    /// Arguments `(x, residual, y, h, rstd, weight, M, N, eps)`.
    pub fn pack_args(&self, output_shape: &[usize]) -> (args: Vec<KernelArg>)
        requires
            output_shape@.len() >= 2,
        ensures
            args@ == seq![
                KernelArg::Ptr(Slot::Input(0)),
                KernelArg::Ptr(Slot::Input(1)),
                KernelArg::Ptr(Slot::Output),
                KernelArg::Ptr(Slot::Param(1)),
                KernelArg::Ptr(Slot::Param(2)),
                KernelArg::Ptr(Slot::Param(0)),
                KernelArg::I32(low_i32(output_shape@[0] as int) as i32),
                KernelArg::I32(low_i32(output_shape@[1] as int) as i32),
                KernelArg::F32(self.eps),
            ],
    {
        let m: i32 = to_i32(output_shape[0]);
        let n: i32 = to_i32(output_shape[1]);
        vec![
            KernelArg::Ptr(Slot::Input(0)),
            KernelArg::Ptr(Slot::Input(1)),
            KernelArg::Ptr(Slot::Output),
            KernelArg::Ptr(Slot::Param(1)),
            KernelArg::Ptr(Slot::Param(2)),
            KernelArg::Ptr(Slot::Param(0)),
            KernelArg::I32(m),
            KernelArg::I32(n),
            KernelArg::F32(self.eps),
        ]
    }

    pub fn block(&self) -> (b: Dim3)
        ensures
            b == block_dim(),
    {
        Dim3 { x: 128, y: 1, z: 1 }
    }

    /// One block per row.
    pub fn grid(&self, output_shape: &[usize]) -> (g: Dim3)
        requires
            output_shape@.len() >= 1,
        ensures
            g.x == low_u32(output_shape@[0] as int),
            g.y == 1,
            g.z == 1,
    {
        Dim3 { x: to_u32(output_shape[0]), y: 1, z: 1 }
    }

    pub fn has_backward(&self) -> (b: bool)
        ensures
            b,
    {
        true
    }

    /// Arguments `(dy, h, dx, dresidual, dweight, weight, rstd, M, N)`.
    pub fn pack_backward_args(&self, output_shape: &[usize]) -> (args: Vec<KernelArg>)
        requires
            output_shape@.len() >= 2,
        ensures
            args@ == seq![
                KernelArg::Ptr(Slot::GradOutput),
                KernelArg::Ptr(Slot::Param(1)),
                KernelArg::Ptr(Slot::GradInput(0)),
                KernelArg::Ptr(Slot::GradInput(1)),
                KernelArg::Ptr(Slot::GradParam(0)),
                KernelArg::Ptr(Slot::Param(0)),
                KernelArg::Ptr(Slot::Param(2)),
                KernelArg::I32(low_i32(output_shape@[0] as int) as i32),
                KernelArg::I32(low_i32(output_shape@[1] as int) as i32),
            ],
    {
        let m: i32 = to_i32(output_shape[0]);
        let n: i32 = to_i32(output_shape[1]);
        vec![
            KernelArg::Ptr(Slot::GradOutput),
            KernelArg::Ptr(Slot::Param(1)),
            KernelArg::Ptr(Slot::GradInput(0)),
            KernelArg::Ptr(Slot::GradInput(1)),
            KernelArg::Ptr(Slot::GradParam(0)),
            KernelArg::Ptr(Slot::Param(0)),
            KernelArg::Ptr(Slot::Param(2)),
            KernelArg::I32(m),
            KernelArg::I32(n),
        ]
    }

    pub fn backward_block(&self) -> (b: Dim3)
        ensures
            b == block_dim(),
    {
        Dim3 { x: 128, y: 1, z: 1 }
    }

    pub fn backward_grid(&self, output_shape: &[usize]) -> (g: Dim3)
        requires
            output_shape@.len() >= 1,
        ensures
            g.x == low_u32(output_shape@[0] as int),
            g.y == 1,
            g.z == 1,
    {
        self.grid(output_shape)
    }
}

/// Graph node of the fused op. Inputs `x [M, N]` and `residual [M, N]`, output
/// `y [M, N]`.
#[derive(Clone, Copy, Debug, PartialEq, Eq, Structural)]
pub struct FusedAddRmsnormOp {
    pub block_n: i32,
    pub eps: F32Bits,
}

impl FusedAddRmsnormOp {
    pub fn new(eps: F32Bits) -> (r: Self)
        ensures
            r == (FusedAddRmsnormOp { block_n: 1024, eps }),
    {
        FusedAddRmsnormOp { block_n: 1024, eps }
    }

    pub fn custom_data(eps: F32Bits) -> (r: CustomOp)
        ensures
            r == CustomOp::FusedAddRmsnorm(FusedAddRmsnormOp { block_n: 1024, eps }),
    {
        CustomOp::FusedAddRmsnorm(Self::new(eps))
    }

    pub fn name(&self) -> (s: &'static str)
        ensures
            s@ == "fused_add_rmsnorm"@,
    {
        "fused_add_rmsnorm"
    }

    /// The shape of the first input.
    pub fn infer_output_shape(&self, input_shapes: &[&Shape]) -> (out: Shape)
        requires
            input_shapes@.len() >= 1,
        ensures
            out@ == input_shapes@[0]@,
    {
        copy_shape(input_shapes[0])
    }

    pub fn lower(&self) -> (l: Lowered)
        ensures
            l.kernel == (KernelId::FusedAddRmsnormForward { block_n: self.block_n }),
            l.runtime_op == RuntimeOp::FusedAddRmsnorm(
                FusedAddRmsnormRtOp {
                    forward: FusedAddRmsnormForward { block_n: self.block_n },
                    eps: self.eps,
                },
            ),
    {
        let forward = FusedAddRmsnormForward { block_n: self.block_n };
        Lowered {
            kernel: KernelId::FusedAddRmsnormForward { block_n: forward.block_n },
            runtime_op: RuntimeOp::FusedAddRmsnorm(FusedAddRmsnormRtOp { forward, eps: self.eps }),
        }
    }

    pub fn lower_backward(&self) -> (k: KernelId)
        ensures
            k == (KernelId::FusedAddRmsnormBackward { block_n: self.block_n }),
    {
        KernelId::FusedAddRmsnormBackward { block_n: self.block_n }
    }
}

} // verus!
