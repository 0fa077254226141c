//! Every block of a launch stays inside the tensors: for shapes whose tensors have no
//! more cells than an offset can name, the grids and arguments of the runtime ops meet
//! what the kernels ask for.

use vstd::prelude::*;

use crate::cast::{low_i32, low_u32};
use crate::kernels::flash_attn2::AttnBlock;
use crate::kernels::fused_add_rmsnorm::rmsnorm_launch;
use crate::kernels::rope::rope_launch;
use crate::kernels::swiglu::swiglu_launch;
use crate::kernels::token_embed::token_embed_launch;
use crate::kernels::transpose_heads::{heads_in_row, heads_launch};

verus! {

/// The factors of a small product of positive numbers are small.
proof fn lemma_factors(a: int, b: int, c: int)
    requires
        0 < a,
        0 < b,
        0 < c,
        a * b * c <= i32::MAX,
    ensures
        a <= i32::MAX,
        b <= i32::MAX,
{
    assert(a <= a * b * c && b <= a * b * c) by (nonlinear_arith)
        requires
            0 < a,
            0 < b,
            0 < c,
    ;
}

/// A multiple of a bounded product.
proof fn lemma_rows(a: int, ea: int, b: int, c: int)
    requires
        0 <= a < ea,
        0 <= b,
        0 <= c,
    ensures
        (a + 1) * b * c <= ea * b * c,
{
    assert((a + 1) * b * c <= ea * b * c) by (nonlinear_arith)
        requires
            0 <= a < ea,
            0 <= b * c,
    ;
}

/// Transposing to `[h, s, head_dim]`: grid and arguments of
/// [`crate::kernels::transpose_heads::TransposeHeads`].
pub proof fn transpose_stays_in_bounds(head_dim: i32, h: usize, s: usize, x: i32, y: i32)
    requires
        0 < head_dim,
        s * h * head_dim <= i32::MAX,
        0 <= x < low_u32(s as int),
        0 <= y < low_u32(h as int),
    ensures
        heads_launch(x, y, head_dim, low_i32(s as int) as i32, low_i32(h as int) as i32),
{
    if s > 0 && h > 0 {
        lemma_factors(s as int, h as int, head_dim as int);
    }
}

/// Merging to `[s, h · head_dim]`: grid and arguments of
/// [`crate::kernels::transpose_heads::MergeHeads`].
pub proof fn merge_stays_in_bounds(head_dim: i32, s: usize, d: usize, x: i32, y: i32)
    requires
        0 < head_dim,
        s * d <= i32::MAX,
        0 <= x < low_u32(s as int),
        0 <= y < low_u32(heads_in_row(d, head_dim)),
    ensures
        heads_launch(
            x,
            y,
            head_dim,
            low_i32(s as int) as i32,
            low_i32(heads_in_row(d, head_dim)) as i32,
        ),
{
    let h = heads_in_row(d, head_dim);
    let (c, w) = (head_dim as int, d as int);
    assert(0 <= h && h * c <= w) by (nonlinear_arith)
        requires
            h == w / c,
            0 < c,
            0 <= w,
    ;
    assert(s * h * c <= s * d) by (nonlinear_arith)
        requires
            h * c <= d,
            0 <= s,
    ;
    if s > 0 && h > 0 {
        lemma_factors(s as int, h, c);
    }
}

/// Rotating `[bh, n_ctx, head_dim]`: grid and arguments of
/// [`crate::kernels::rope::RopeRtOp`].
pub proof fn rope_stays_in_bounds(head_dim: i32, bh: usize, n_ctx: usize, x: i32, y: i32)
    requires
        0 < head_dim,
        bh * n_ctx * head_dim <= i32::MAX,
        0 <= x < low_u32(n_ctx as int),
        0 <= y < low_u32(bh as int),
    ensures
        rope_launch(x, y, head_dim, low_i32(n_ctx as int) as i32),
{
    if bh > 0 && n_ctx > 0 {
        lemma_factors(bh as int, n_ctx as int, head_dim as int);
        lemma_rows(y as int, bh as int, n_ctx as int, head_dim as int);
    }
}

/// Activating `[m, 2 · d_ff]`: grid and arguments of
/// [`crate::kernels::swiglu::SwigluForward`].
pub proof fn swiglu_stays_in_bounds(block_n: i32, m: usize, d_ff: usize, x: i32)
    requires
        0 < block_n,
        m * d_ff * 2 <= i32::MAX,
        d_ff + block_n <= i32::MAX,
        0 <= x < low_u32(m as int),
        m <= i32::MAX,
    ensures
        swiglu_launch(x, block_n, low_i32(m as int) as i32, low_i32(d_ff as int) as i32),
{
}

/// Normalising `[m, n]`: grid and arguments of
/// [`crate::kernels::fused_add_rmsnorm::FusedAddRmsnormRtOp`].
pub proof fn rmsnorm_stays_in_bounds(block_n: i32, m: usize, n: usize, x: i32)
    requires
        0 < block_n,
        m * n <= i32::MAX,
        n + block_n <= i32::MAX,
        0 <= x < low_u32(m as int),
        m <= i32::MAX,
    ensures
        rmsnorm_launch(x, block_n, low_i32(m as int) as i32, low_i32(n as int) as i32),
{
}

/// Looking up `[s]` in `[vocab_size, d_model]`: grid and arguments of
/// [`crate::layers::embedding::TokenEmbedRuntimeOp`], for token ids of the vocabulary.
pub proof fn lookup_stays_in_bounds(
    block_d: i32,
    vocab_size: usize,
    s: usize,
    d_model: usize,
    token_id: i32,
    x: i32,
)
    requires
        0 < block_d,
        s * d_model <= i32::MAX,
        vocab_size * d_model <= i32::MAX,
        d_model + block_d <= i32::MAX,
        0 <= token_id < vocab_size,
        0 <= x < low_u32(s as int),
        s <= i32::MAX,
    ensures
        token_embed_launch(
            x,
            token_id,
            block_d,
            low_i32(s as int) as i32,
            low_i32(d_model as int) as i32,
        ),
{
    assert((token_id + 1) * d_model <= vocab_size * d_model) by (nonlinear_arith)
        requires
            0 <= token_id < vocab_size,
            0 <= d_model,
    ;
}

/// Attending from `[bh, nq, head_dim]` to `[bh, nk, head_dim]`: grid and arguments of
/// [`crate::kernels::flash_attn2::FlashAttn2RuntimeOp`] and its causal counterpart,
/// forward and backward.
pub proof fn attention_stays_in_bounds(
    head_dim: i32,
    bh: usize,
    nq: usize,
    nk: usize,
    x: i32,
    y: i32,
)
    requires
        0 < head_dim,
        bh * nq * head_dim <= i32::MAX,
        bh * nk * head_dim <= i32::MAX,
        0 <= x < low_u32(nq as int),
        0 <= y < low_u32(bh as int),
    ensures
        (AttnBlock {
            pos: x,
            bh: y,
            head_dim,
            n_ctx_q: low_i32(nq as int) as i32,
            n_ctx_k: low_i32(nk as int) as i32,
        }).launched(),
{
    if bh > 0 && nq > 0 {
        lemma_factors(bh as int, nq as int, head_dim as int);
        lemma_rows(y as int, bh as int, nq as int, head_dim as int);
        if nk > 0 {
            lemma_factors(bh as int, nk as int, head_dim as int);
        }
        lemma_rows(y as int, bh as int, nk as int, head_dim as int);
    }
}

} // verus!
