//! What the kernels compute, in exact arithmetic and plain indices.
//!
//! Each law here gives the value of every cell that a block writes as a formula over
//! the contents of memory before the launch: row-major offsets are written out, sums
//! run over whole rows, and tiles do not appear.

use vstd::prelude::*;

use crate::ieee::F32_MINUS_TWO;
use crate::kernels::exact::{eval, lemma_minus_two_value, lemma_total_eq, total, Model, Value};
use crate::kernels::flash_attn2::AttnBlock;
use crate::kernels::fused_add_rmsnorm::{
    backward_gradients, forward_normalises, fused_backward_adds, fused_backward_cells, fused_cells,
    hidden_value, mean_dot, mean_square, rmsnorm_launch,
};
use crate::kernels::index::lemma_row_offset;
use crate::kernels::reals::{prod, quot};
use crate::kernels::rope::{
    rope_angle, rope_backward_cells, rope_cells, rope_launch, rotated_even, rotated_odd,
    unrotated_even, unrotated_odd,
};
use crate::kernels::softmax::{
    backward_gradients as attention_block_gradients, backward_recomputes_weights,
    causal_forward_is_softmax,
};
use crate::kernels::swiglu::{
    backward_value, forward_value, swiglu_backward_cells, swiglu_cells, swiglu_launch,
};
use crate::kernels::tile::{at, Expr, UnOp};
use crate::kernels::token_embed::{token_embed_cells, token_embed_launch};
use crate::kernels::transpose_heads::{heads_launch, merged_cells, transposed_cells};

verus! {

// ---------------------------------------------------------------------------
// Rotary embedding
// ---------------------------------------------------------------------------
/// Rotation. At position `pos` pair `k` of a head of `head_dim` values is turned by
/// `θ = pos · exp(k · (−2 · ln(base) / head_dim))`:
/// `y[2k] = x[2k] · cos θ − x[2k+1] · sin θ` and
/// `y[2k+1] = x[2k] · sin θ + x[2k+1] · cos θ`. The backward pass turns gradients back by
/// the same angle.
pub proof fn rope_rotates_by_position(
    pos: i32,
    bh: i32,
    head_dim: i32,
    n_ctx: i32,
    k: int,
    ln_base: real,
    m: Model,
)
    requires
        0 <= pos < n_ctx,
        0 <= bh,
        0 < head_dim,
        (bh + 1) * n_ctx * head_dim <= i32::MAX,
        0 <= k,
        2 * k + 1 < head_dim,
        (m.arg)(3) == Value::Fin(ln_base),
    ensures
        ({
            let even = (bh * n_ctx + pos) * head_dim + 2 * k;
            let odd = (bh * n_ctx + pos) * head_dim + 2 * k + 1;
            let rate = quot(prod(-2real, ln_base), head_dim as real);
            let theta = prod(pos as real, (m.exp)(prod(k as real, rate)));
            let (c, s) = ((m.cos)(theta), (m.sin)(theta));
            let (x, y) = ((m.load)(0, even), (m.load)(0, odd));
            let forward = rope_cells(pos as int, bh as int, head_dim as int, n_ctx as int);
            let backward = rope_backward_cells(
                pos as int,
                bh as int,
                head_dim as int,
                n_ctx as int,
            );
            &&& eval(forward[(1, even)], m) == Value::Fin(prod(x, c) - prod(y, s))
            &&& eval(forward[(1, odd)], m) == Value::Fin(prod(x, s) + prod(y, c))
            &&& eval(backward[(1, even)], m) == Value::Fin(prod(x, c) + prod(y, s))
            &&& eval(backward[(1, odd)], m) == Value::Fin(prod(-x, s) + prod(y, c))
            &&& forall|buf: int, o: int| #[trigger]
                forward.dom().contains((buf, o)) <==> buf == 1 && even - 2 * k <= o < even - 2 * k
                    + 2 * (head_dim as int / 2)
            &&& forall|buf: int, o: int| #[trigger]
                backward.dom().contains((buf, o)) <==> buf == 1 && even - 2 * k <= o < even - 2 * k
                    + 2 * (head_dim as int / 2)
        }),
{
    let row = (bh * n_ctx + pos) * head_dim;
    assert(rope_launch(pos, bh, head_dim, n_ctx));
    lemma_row_fits(bh as int, pos as int, n_ctx as int, head_dim as int, (bh + 1) as int);
    let (even, odd) = (row + 2 * k, row + 2 * k + 1);
    let rate = quot(prod(-2real, ln_base), head_dim as real);
    let theta = prod(pos as real, (m.exp)(prod(k as real, rate)));
    let angle = rope_angle(pos as int, k, head_dim as int);
    assert(eval(angle, m) == Value::Fin(theta)) by {
        let two = Expr::Const(F32_MINUS_TWO);
        let lnb = Expr::Arg(3);
        let n = Expr::Int(head_dim);
        let step = Expr::Int(k as i32);
        lemma_minus_two_value(m);
        assert(eval(lnb, m) == Value::Fin(ln_base));
        assert(eval(two.times(lnb), m) == Value::Fin(prod(-2real, ln_base)));
        assert(eval(n, m) == Value::Fin(head_dim as real));
        assert(eval(two.times(lnb).over(n), m) == Value::Fin(rate));
        assert(eval(step, m) == Value::Fin(k as real));
        assert(eval(step.times(two.times(lnb).over(n)), m) == Value::Fin(prod(k as real, rate)));
        assert(eval(step.times(two.times(lnb).over(n)).apply(UnOp::Exp), m) is Fin);
        assert(eval(Expr::Int(pos), m) == Value::Fin(pos as real));
    }
    let (x, y) = (at(0, even), at(0, odd));
    assert(eval(x, m) == Value::Fin((m.load)(0, even)));
    assert(eval(y, m) == Value::Fin((m.load)(0, odd)));
    let (c, s) = (angle.apply(UnOp::Cos), angle.apply(UnOp::Sin));
    assert(eval(c, m) == Value::Fin((m.cos)(theta)));
    assert(eval(s, m) == Value::Fin((m.sin)(theta)));
    assert(eval(x.times(c), m) is Fin && eval(x.times(s), m) is Fin);
    assert(eval(y.times(c), m) is Fin && eval(y.times(s), m) is Fin);
    assert(eval(x.apply(UnOp::Neg), m) is Fin);
    assert(eval(x.apply(UnOp::Neg).times(s), m) is Fin);
    let forward = rope_cells(pos as int, bh as int, head_dim as int, n_ctx as int);
    let backward = rope_backward_cells(pos as int, bh as int, head_dim as int, n_ctx as int);
    assert(forward[(1, even)] == rotated_even(x, y, angle));
    assert(forward[(1, odd)] == rotated_odd(x, y, angle));
    assert(backward[(1, even)] == unrotated_even(x, y, angle));
    assert(backward[(1, odd)] == unrotated_odd(x, y, angle));
}

/// Row `b` of matrix `a` lies inside `count` matrices of `rows` rows of `width`.
proof fn lemma_row_fits(a: int, b: int, rows: int, width: int, count: int)
    requires
        0 <= a < count,
        0 <= b < rows,
        0 <= width,
        count * rows * width <= i32::MAX,
    ensures
        0 <= (a * rows + b) * width,
        (a * rows + b) * width + width <= count * rows * width,
{
    assert(0 <= a * rows + b && a * rows + b + 1 <= count * rows) by (nonlinear_arith)
        requires
            0 <= a < count,
            0 <= b < rows,
    ;
    let r = a * rows + b;
    assert(0 <= r * width && r * width + width <= (count * rows) * width) by (nonlinear_arith)
        requires
            0 <= r,
            r + 1 <= count * rows,
            0 <= width,
    ;
}

// ---------------------------------------------------------------------------
// Head layouts
// ---------------------------------------------------------------------------
/// Splitting heads copies `x[s, h, d]` to `out[h, s, d]`, merging copies `x[h, s, d]` to
/// `out[s, h, d]`: block `(s, h)` sets the `head_dim` cells of its row and no others.
pub proof fn head_layouts(
    s: i32,
    h: i32,
    head_dim: i32,
    seq_len: i32,
    n_heads: i32,
    d: int,
    m: Model,
)
    requires
        0 <= s < seq_len,
        0 <= h < n_heads,
        0 <= d < head_dim,
        seq_len * n_heads * head_dim <= i32::MAX,
    ensures
        ({
            let by_head = (h * seq_len + s) * head_dim;
            let by_row = (s * n_heads + h) * head_dim;
            let split = transposed_cells(
                s as int,
                h as int,
                head_dim as int,
                seq_len as int,
                n_heads as int,
            );
            let merge = merged_cells(
                s as int,
                h as int,
                head_dim as int,
                seq_len as int,
                n_heads as int,
            );
            &&& eval(split[(1, by_head + d)], m) == Value::Fin((m.load)(0, by_row + d))
            &&& eval(merge[(1, by_row + d)], m) == Value::Fin((m.load)(0, by_head + d))
            &&& forall|buf: int, o: int| #[trigger]
                split.dom().contains((buf, o)) <==> buf == 1 && by_head <= o < by_head + head_dim
            &&& forall|buf: int, o: int| #[trigger]
                merge.dom().contains((buf, o)) <==> buf == 1 && by_row <= o < by_row + head_dim
        }),
{
    let (es, eh, w) = (seq_len as int, n_heads as int, head_dim as int);
    lemma_row_fits(s as int, h as int, eh, w, es);
    assert(eh * es * w == es * eh * w) by (nonlinear_arith);
    lemma_row_fits(h as int, s as int, es, w, eh);
}

// ---------------------------------------------------------------------------
// Gated activation
// ---------------------------------------------------------------------------
/// SwiGLU. A row of the input holds `d_ff` gate values and then `d_ff` up values:
/// `out[n] = gate[n] · σ(gate[n]) · up[n]`. Backward,
/// `dgate[n] = grad[n] · up[n] · σ(1 + gate[n](1 − σ))` and
/// `dup[n] = grad[n] · gate[n] · σ`, in the same layout. A block sets its row and no other
/// cell.
pub proof fn swiglu_gates(row: i32, block_n: i32, rows: i32, d_ff: i32, n: int, m: Model)
    requires
        0 <= row < rows,
        0 < block_n,
        0 <= n < d_ff,
        rows * d_ff * 2 <= i32::MAX,
        d_ff + block_n <= i32::MAX,
    ensures
        ({
            let forward = swiglu_cells(row as int, d_ff as int);
            let backward = swiglu_backward_cells(row as int, d_ff as int, d_ff as int);
            let wide = row * d_ff * 2;
            let slim = row * d_ff;
            let silu = |g: real| prod(g, (m.sigmoid)(g));
            &&& eval(forward[(1, slim + n)], m) == Value::Fin(
                prod(silu((m.load)(0, wide + n)), (m.load)(0, wide + d_ff + n)),
            )
            &&& eval(backward[(2, wide + n)], m) == ({
                let gate = (m.load)(1, wide + n);
                let up = (m.load)(1, wide + d_ff + n);
                let sig = (m.sigmoid)(gate);
                Value::Fin(
                    prod(
                        prod((m.load)(0, slim + n), up),
                        prod(sig, 1real + prod(gate, 1real - sig)),
                    ),
                )
            })
            &&& eval(backward[(2, wide + d_ff + n)], m) == Value::Fin(
                prod((m.load)(0, slim + n), silu((m.load)(1, wide + n))),
            )
            &&& forall|buf: int, o: int| #[trigger]
                forward.dom().contains((buf, o)) <==> buf == 1 && slim <= o < slim + d_ff
            &&& forall|buf: int, o: int| #[trigger]
                backward.dom().contains((buf, o)) <==> buf == 2 && wide <= o < wide + 2 * d_ff
        }),
{
    forward_value(row, block_n, rows, d_ff, n, m);
    backward_value(row, block_n, rows, d_ff, n, m);
}

// ---------------------------------------------------------------------------
// Embedding lookup
// ---------------------------------------------------------------------------
/// A lookup copies column `n` of the token's row of the table to column `n` of the
/// position's row of the output, and sets no other cell.
pub proof fn lookup_copies_rows(
    pid: i32,
    token_id: i32,
    seq_len: i32,
    d_model: i32,
    n: int,
    m: Model,
)
    requires
        0 <= pid < seq_len,
        0 <= token_id,
        0 <= n < d_model,
        seq_len * d_model <= i32::MAX,
        (token_id + 1) * d_model <= i32::MAX,
    ensures
        ({
            let cells = token_embed_cells(
                pid as int,
                token_id as int,
                d_model as int,
                d_model as int,
            );
            let row = pid * d_model;
            &&& eval(cells[(2, row + n)], m) == Value::Fin((m.load)(1, token_id * d_model + n))
            &&& forall|buf: int, o: int| #[trigger]
                cells.dom().contains((buf, o)) <==> buf == 2 && row <= o < row + d_model
        }),
{
    assert(0 <= token_id * d_model && token_id * d_model + d_model == (token_id + 1) * d_model)
        by (nonlinear_arith)
        requires
            0 <= token_id,
            0 <= d_model,
    ;
}

// ---------------------------------------------------------------------------
// Residual sum and normalisation
// ---------------------------------------------------------------------------
/// Fused residual sum and RMS norm, whatever the tile width. With `h = x + residual` and
/// `rstd = 1/√((Σ h²)/N + eps)`, a block stores `h`, `rstd` and `y[c] = h[c] · rstd · γ[c]`
/// for its row, and no other cell.
pub proof fn rmsnorm_of_the_sum(
    row: i32,
    block_n: i32,
    rows: i32,
    n: i32,
    c: int,
    eps: real,
    m: Model,
)
    requires
        0 <= row < rows,
        0 < block_n,
        0 <= c < n,
        rows * n <= i32::MAX,
        n + block_n <= i32::MAX,
        (m.arg)(8) == Value::Fin(eps),
        ({
            let h = |j: int| (m.load)(0, row * n + j) + (m.load)(1, row * n + j);
            prod(total(n as nat, |j: int| prod(h(j), h(j))), quot(1real, n as real)) + eps > 0real
        }),
    ensures
        ({
            let cells = fused_cells(row as int, n as int, block_n as int, n as int);
            let o = row * n;
            let h = |j: int| (m.load)(0, row * n + j) + (m.load)(1, row * n + j);
            let mean = prod(total(n as nat, |j: int| prod(h(j), h(j))), quot(1real, n as real));
            let rstd = (m.rsqrt)(mean + eps);
            &&& eval(cells[(3, o + c)], m) == Value::Fin(h(c))
            &&& eval(cells[(4, row as int)], m) == Value::Fin(rstd)
            &&& eval(cells[(2, o + c)], m) == Value::Fin(prod(prod(h(c), rstd), (m.load)(5, c)))
            &&& forall|buf: int, p: int| #[trigger]
                cells.dom().contains((buf, p)) <==> ((buf == 2 || buf == 3) && o <= p < o + n) || (
                buf == 4 && p == row)
        }),
{
    let h = |j: int| (m.load)(0, row * n + j) + (m.load)(1, row * n + j);
    lemma_total_eq(
        n as nat,
        |j: int| prod(h(j), h(j)),
        |j: int|
            prod(
                hidden_value(row as int, n as int, j, m),
                hidden_value(row as int, n as int, j, m),
            ),
    );
    assert(mean_square(row as int, n as int, m) == prod(
        total(n as nat, |j: int| prod(h(j), h(j))),
        quot(1real, n as real),
    ));
    forward_normalises(row, block_n, rows, n, c, eps, m);
}

/// The backward pass, whatever the tile width. With `dot = (Σ dy · γ · h)/N` over the row,
/// a block stores `rstd · γ[c] · (dy[c] − h[c] · rstd² · dot)` as the gradient of both
/// inputs, and adds `dy[c] · h[c] · rstd` to the weight gradient.
pub proof fn rmsnorm_gradients(row: i32, block_n: i32, rows: i32, n: i32, c: int, m: Model)
    requires
        0 <= row < rows,
        0 < block_n,
        0 <= c < n,
        rows * n <= i32::MAX,
        n + block_n <= i32::MAX,
    ensures
        ({
            let cells = fused_backward_cells(row as int, n as int, block_n as int, n as int);
            let adds = fused_backward_adds(row as int, n as int, n as int);
            let o = row * n;
            let dy = |j: int| (m.load)(0, row * n + j);
            let h = |j: int| (m.load)(1, row * n + j);
            let weight = |j: int| (m.load)(5, j);
            let rstd = (m.load)(6, row as int);
            let dot = prod(
                total(n as nat, |j: int| prod(prod(dy(j), weight(j)), h(j))),
                quot(1real, n as real),
            );
            let dx = prod(
                prod(rstd, weight(c)),
                dy(c) - prod(prod(h(c), prod(rstd, rstd)), dot),
            );
            &&& eval(cells[(2, o + c)], m) == Value::Fin(dx)
            &&& eval(cells[(3, o + c)], m) == Value::Fin(dx)
            &&& eval(adds[(4, c)], m) == Value::Fin(prod(prod(dy(c), h(c)), rstd))
            &&& forall|buf: int, p: int| #[trigger]
                cells.dom().contains((buf, p)) <==> (buf == 2 || buf == 3) && o <= p < o + n
            &&& forall|buf: int, p: int| #[trigger]
                adds.dom().contains((buf, p)) <==> buf == 4 && 0 <= p < n
        }),
{
    let dy = |j: int| (m.load)(0, row * n + j);
    let h = |j: int| (m.load)(1, row * n + j);
    let weight = |j: int| (m.load)(5, j);
    lemma_total_eq(
        n as nat,
        |j: int| prod(prod(dy(j), weight(j)), h(j)),
        |j: int| prod(prod((m.load)(0, row * n + j), (m.load)(5, j)), (m.load)(1, row * n + j)),
    );
    assert(mean_dot(row as int, n as int, m) == prod(
        total(n as nat, |j: int| prod(prod(dy(j), weight(j)), h(j))),
        quot(1real, n as real),
    ));
    backward_gradients(row, block_n, rows, n, c, m);
}

// ---------------------------------------------------------------------------
// Attention
// ---------------------------------------------------------------------------
/// Causal attention is a softmax over the past. With the dot products
/// `s_j = ⟨q, k_j⟩ · scale` of query row `pos` with key rows of its own batch-head, the
/// block stores `Σ exp(s_j) · v_j[d] / Σ exp(s_j)` and `ln Σ exp(s_j)`, both over the key
/// rows `j <= pos`, and no other cell.
pub proof fn causal_attention(
    pos: i32,
    bh: i32,
    head_dim: i32,
    nq: i32,
    nk: i32,
    d: int,
    scale: real,
    m: Model,
)
    requires
        0 <= pos < nq,
        0 <= bh,
        1 <= nk,
        0 <= d < head_dim,
        (bh + 1) * nq * head_dim <= i32::MAX,
        (bh + 1) * nk * head_dim <= i32::MAX,
        forall|a: real, b: real|
            #![trigger prod((m.exp)(a), (m.exp)(b))]
            prod((m.exp)(a), (m.exp)(b)) == (m.exp)(a + b),
        forall|a: real| #[trigger] (m.exp)(a) > 0real,
        forall|a: real| a > 0real ==> (m.exp)(#[trigger] (m.log)(a)) == a,
        forall|a: real| (m.log)(#[trigger] (m.exp)(a)) == a,
        (m.arg)(7) == Value::Fin(scale),
        (m.arg)(8) == Value::NegInf,
    ensures
        ({
            let blk = AttnBlock { pos, bh, head_dim, n_ctx_q: nq, n_ctx_k: nk };
            let cells = blk.forward_cells();
            let q = (bh * nq + pos) * head_dim;
            let row = |j: int| (bh * nk + j) * head_dim;
            let past = if nk <= pos {
                nk as nat
            } else {
                (pos + 1) as nat
            };
            let score = |j: int|
                prod(
                    total(
                        head_dim as nat,
                        |i: int| prod((m.load)(0, q + i), (m.load)(1, row(j) + i)),
                    ),
                    scale,
                );
            let sum = total(past, |j: int| (m.exp)(score(j)));
            let weighted = total(
                past,
                |j: int| prod((m.exp)(score(j)), (m.load)(2, row(j) + d)),
            );
            &&& eval(cells[(3, q + d)], m) == Value::Fin(quot(weighted, sum))
            &&& eval(cells[(4, bh * nq + pos)], m) == Value::Fin((m.log)(sum))
            &&& forall|buf: int, o: int| #[trigger]
                cells.dom().contains((buf, o)) <==> (buf == 3 && q <= o < q + head_dim) || (buf == 4
                    && o == bh * nq + pos)
        }),
{
    let blk = AttnBlock { pos, bh, head_dim, n_ctx_q: nq, n_ctx_k: nk };
    let q = (bh * nq + pos) * head_dim;
    let row = |j: int| (bh * nk + j) * head_dim;
    let past = if nk <= pos {
        nk as nat
    } else {
        (pos + 1) as nat
    };
    let score = |j: int|
        prod(
            total(head_dim as nat, |i: int| prod((m.load)(0, q + i), (m.load)(1, row(j) + i))),
            scale,
        );
    causal_forward_is_softmax(blk, d, scale, m);
    assert(blk.q_row() == q);
    assert forall|j: int| #[trigger] blk.kv_row(j) == row(j) by {
        lemma_row_offset(bh as int, j, nk as int, head_dim as int);
    }
    assert forall|j: int| #[trigger] blk.score_value(j, scale, m) == score(j) by {
        assert(blk.kv_row(j) == row(j));
        lemma_total_eq(
            head_dim as nat,
            |i: int| prod((m.load)(0, blk.q_row() + i), (m.load)(1, blk.kv_row(j) + i)),
            |i: int| prod((m.load)(0, q + i), (m.load)(1, row(j) + i)),
        );
    }
    lemma_total_eq(
        past,
        |j: int| (m.exp)(blk.score_value(j, scale, m)),
        |j: int| (m.exp)(score(j)),
    );
    assert forall|j: int| 0 <= j < past implies prod(
        (m.exp)(blk.score_value(j, scale, m)),
        (m.load)(2, blk.kv_row(j) + d),
    ) == prod((m.exp)(#[trigger] score(j)), (m.load)(2, row(j) + d)) by {
        assert(blk.score_value(j, scale, m) == score(j));
        assert(blk.kv_row(j) == row(j));
    }
    lemma_total_eq(
        past,
        |j: int| prod((m.exp)(blk.score_value(j, scale, m)), (m.load)(2, blk.kv_row(j) + d)),
        |j: int| prod((m.exp)(score(j)), (m.load)(2, row(j) + d)),
    );
    assert(blk.visible(nk as nat) == past);
}

/// Gradients of attention, causal or not, where the forward pass saved `ln z`. With the
/// weights `p_j = exp(s_j)/z`, zero for the future of a causal pass, and
/// `dS_j = p_j · (⟨dO, v_j⟩ − ⟨O, dO⟩)`, the block stores `dQ[d] = Σ dS_j · k_j[d] · scale`
/// over all key rows, and adds `p_k · dO[d]` to `dV[k, d]` and `dS_k · q[d] · scale` to
/// `dK[k, d]` of its own batch-head.
pub proof fn attention_gradients(
    causal: bool,
    pos: i32,
    bh: i32,
    head_dim: i32,
    nq: i32,
    nk: i32,
    k: int,
    d: int,
    scale: real,
    z: real,
    m: Model,
)
    requires
        0 <= pos < nq,
        0 <= bh,
        0 <= k < nk,
        0 <= d < head_dim,
        (bh + 1) * nq * head_dim <= i32::MAX,
        (bh + 1) * nk * head_dim <= i32::MAX,
        forall|a: real, b: real|
            #![trigger prod((m.exp)(a), (m.exp)(b))]
            prod((m.exp)(a), (m.exp)(b)) == (m.exp)(a + b),
        forall|a: real| #[trigger] (m.exp)(a) > 0real,
        forall|a: real| a > 0real ==> (m.exp)(#[trigger] (m.log)(a)) == a,
        forall|a: real| (m.log)(#[trigger] (m.exp)(a)) == a,
        (m.arg)(11) == Value::Fin(scale),
        z > 0real,
        (m.load)(5, bh * nq + pos) == (m.log)(z),
    ensures
        ({
            let blk = AttnBlock { pos, bh, head_dim, n_ctx_q: nq, n_ctx_k: nk };
            let stores = blk.backward_stores(causal);
            let adds = blk.backward_adds(causal, nk as nat);
            let h = head_dim as nat;
            let q = (bh * nq + pos) * head_dim;
            let row = |j: int| (bh * nk + j) * head_dim;
            let p = |j: int|
                if causal && j > pos {
                    0real
                } else {
                    let dot = total(h, |i: int| prod((m.load)(0, q + i), (m.load)(1, row(j) + i)));
                    quot((m.exp)(prod(dot, scale)), z)
                };
            let delta = total(h, |i: int| prod((m.load)(3, q + i), (m.load)(4, q + i)));
            let ds = |j: int|
                prod(
                    p(j),
                    total(h, |i: int| prod((m.load)(4, q + i), (m.load)(2, row(j) + i))) - delta,
                );
            &&& eval(stores[(6, q + d)], m) == Value::Fin(
                total(
                    nk as nat,
                    |j: int| prod(prod(ds(j), (m.load)(1, row(j) + d)), scale),
                ),
            )
            &&& eval(adds[(8, row(k) + d)], m) == Value::Fin(prod(p(k), (m.load)(4, q + d)))
            &&& eval(adds[(7, row(k) + d)], m) == Value::Fin(
                prod(prod(ds(k), (m.load)(0, q + d)), scale),
            )
            &&& forall|buf: int, o: int| #[trigger]
                stores.dom().contains((buf, o)) <==> buf == 6 && q <= o < q + head_dim
            &&& forall|buf: int, o: int| #[trigger]
                adds.dom().contains((buf, o)) <==> (buf == 7 || buf == 8) && bh * nk * head_dim
                    <= o < (bh + 1) * nk * head_dim
        }),
{
    let blk = AttnBlock { pos, bh, head_dim, n_ctx_q: nq, n_ctx_k: nk };
    let h = head_dim as nat;
    let q = (bh * nq + pos) * head_dim;
    let row = |j: int| (bh * nk + j) * head_dim;
    let p = |j: int|
        if causal && j > pos {
            0real
        } else {
            let dot = total(h, |i: int| prod((m.load)(0, q + i), (m.load)(1, row(j) + i)));
            quot((m.exp)(prod(dot, scale)), z)
        };
    let delta = total(h, |i: int| prod((m.load)(3, q + i), (m.load)(4, q + i)));
    let ds = |j: int|
        prod(
            p(j),
            total(h, |i: int| prod((m.load)(4, q + i), (m.load)(2, row(j) + i))) - delta,
        );
    assert(blk.launched());
    assert(blk.q_row() == q);
    assert forall|j: int| #[trigger] blk.kv_row(j) == row(j) by {
        lemma_row_offset(bh as int, j, nk as int, head_dim as int);
    }
    assert forall|j: int| 0 <= j < nk implies eval(#[trigger] blk.probability(causal, j), m)
        == Value::Fin(p(j)) by {
        backward_recomputes_weights(blk, causal, j, scale, z, m);
        assert(blk.kv_row(j) == row(j));
        lemma_total_eq(
            h,
            |i: int| prod((m.load)(0, blk.q_row() + i), (m.load)(1, blk.kv_row(j) + i)),
            |i: int| prod((m.load)(0, q + i), (m.load)(1, row(j) + i)),
        );
    }
    attention_block_gradients(blk, causal, k, d, scale, p, m);
    assert forall|j: int| #[trigger] blk.residual_value(j, m) == total(
        h,
        |i: int| prod((m.load)(4, q + i), (m.load)(2, row(j) + i)),
    ) - delta by {
        assert(blk.kv_row(j) == row(j));
        lemma_total_eq(
            h,
            |i: int| prod((m.load)(4, blk.q_row() + i), (m.load)(2, blk.kv_row(j) + i)),
            |i: int| prod((m.load)(4, q + i), (m.load)(2, row(j) + i)),
        );
        lemma_total_eq(
            h,
            |i: int| prod((m.load)(3, blk.q_row() + i), (m.load)(4, blk.q_row() + i)),
            |i: int| prod((m.load)(3, q + i), (m.load)(4, q + i)),
        );
    }
    let mine = |j: int| prod(prod(ds(j), (m.load)(1, row(j) + d)), scale);
    let theirs = |j: int|
        prod(
            prod(prod(p(j), blk.residual_value(j, m)), (m.load)(1, blk.kv_row(j) + d)),
            scale,
        );
    assert forall|j: int| 0 <= j < nk implies theirs(j) == #[trigger] mine(j) by {
        assert(blk.kv_row(j) == row(j));
        assert(blk.residual_value(j, m) == total(
            h,
            |i: int| prod((m.load)(4, q + i), (m.load)(2, row(j) + i)),
        ) - delta);
    }
    lemma_total_eq(nk as nat, theirs, mine);
    assert(blk.kv_row(k) == row(k));
    assert(blk.residual_value(k, m) == total(
        h,
        |i: int| prod((m.load)(4, q + i), (m.load)(2, row(k) + i)),
    ) - delta);
    assert((bh + 1) * nk * head_dim == bh * nk * head_dim + nk * head_dim) by (nonlinear_arith);
}

// ---------------------------------------------------------------------------
// Blocks
// ---------------------------------------------------------------------------
/// A block of a launch may run wherever it lies in the grid and 32-bit offsets reach the
/// cells of its tensors; nothing else is asked for.
pub proof fn blocks_of_a_launch_may_run(x: i32, y: i32, a: i32, b: i32, c: i32)
    ensures
        // Position `x` of `b`, batch-head `y`, head dimension `a`.
        0 <= x < b && 0 <= y && 0 < a && (y + 1) * b * a <= i32::MAX ==> rope_launch(x, y, a, b),
        // Row `x` of `b`, tile width `a`, `c` columns.
        0 <= x < b && 0 < a && 0 <= c && b * c * 2 <= i32::MAX && c + a <= i32::MAX
            ==> swiglu_launch(x, a, b, c),
        0 <= x < b && 0 < a && 0 <= c && b * c <= i32::MAX && c + a <= i32::MAX ==> rmsnorm_launch(
            x,
            a,
            b,
            c,
        ),
        // Position `x` of `b`, token `y`, tile width `a`, `c` columns.
        0 <= x < b && 0 <= y && 0 < a && 0 <= c && b * c <= i32::MAX && (y + 1) * c <= i32::MAX && c
            + a <= i32::MAX ==> token_embed_launch(x, y, a, b, c),
        // Position `x` of `b`, head `y` of `c`, head dimension `a`.
        0 <= x < b && 0 <= y < c && 0 < a && b * c * a <= i32::MAX ==> heads_launch(x, y, a, b, c),
        // Position `x` of `b`, batch-head `y`, head dimension `a`, `c` key rows.
        0 <= x < b && 0 <= y && 0 < a && 0 <= c && (y + 1) * b * a <= i32::MAX && (y + 1) * c * a
            <= i32::MAX ==> (AttnBlock {
            pos: x,
            bh: y,
            head_dim: a,
            n_ctx_q: b,
            n_ctx_k: c,
        }).launched(),
{
}

} // verus!
