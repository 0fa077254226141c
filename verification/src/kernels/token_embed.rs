//! Token embedding gather kernel.
//!
//! One block per sequence position. Each block loads `ids[pid]` (stored as a float),
//! converts it to an integer, then copies the corresponding row of the embedding
//! table to the output buffer in tiles of `block_d` elements.

use vstd::prelude::*;

use crate::ieee::{f32_to_i32, fits_i32, truncated_f32, F32Bits};
use crate::kernels::tile::{at, with_run, Expr, Tile, Trace, TraceView};

verus! {

/// Position `pid` is a block of the grid `(seq_len, 1, 1)`, and output and table have
/// no more cells than an offset can name.
pub open spec fn token_embed_launch(
    pid: i32,
    token_id: i32,
    block_d: i32,
    seq_len: i32,
    d_model: i32,
) -> bool {
    &&& 0 <= pid < seq_len
    &&& 0 <= token_id
    &&& 0 < block_d
    &&& 0 <= d_model
    &&& seq_len * d_model <= i32::MAX
    &&& (token_id + 1) * d_model <= i32::MAX
    &&& d_model + block_d <= i32::MAX
}

/// `out[pid, :] = weight[token_id, :]`, the first `end` columns.
pub open spec fn token_embed_cells(pid: int, token_id: int, d_model: int, end: int) -> Map<
    (int, int),
    Expr,
> {
    with_run(
        Map::empty(),
        2,
        pid * d_model,
        Seq::new(end as nat, |n: int| at(1, token_id * d_model + n)),
    )
}

/// Token embedding forward, one block: `out[s, :] = weight[ids[s], :]`. `token_id` is
/// the value that the block loads from `ids[pid]`; [`token_embed_gather`] loads it.
///
/// Arguments: `ids [S]` (0), `weight [vocab_size, d_model]` (1), `out [S, d_model]`
/// (2), `seq_len` (3), `d_model` (4).
pub fn token_embed_forward(
    pid: i32,
    token_id: i32,
    block_d: i32,
    seq_len: i32,
    d_model: i32,
) -> (t: Trace)
    requires
        token_embed_launch(pid, token_id, block_d, seq_len, d_model),
    ensures
        t@ == (TraceView {
            stores: token_embed_cells(
                pid as int,
                token_id as int,
                d_model as int,
                d_model as int,
            ),
            adds: Map::empty(),
        }),
{
    proof {
        assert(0 <= pid * d_model && pid * d_model + d_model <= seq_len * d_model)
            by (nonlinear_arith)
            requires
                0 <= pid < seq_len,
                0 <= d_model,
        ;
        assert((token_id + 1) * d_model == token_id * d_model + d_model && 0 <= token_id * d_model)
            by (nonlinear_arith)
            requires
                0 <= token_id,
                0 <= d_model,
        ;
    }
    let embed_base: i32 = token_id * d_model;  // row start in weight table
    let out_base: i32 = pid * d_model;  // row start in output buffer

    let mut t = Trace::new();
    let mut d_start: i32 = 0;
    assert(t@.stores =~= token_embed_cells(pid as int, token_id as int, d_model as int, 0));
    while d_start < d_model
        invariant
            0 <= d_start < d_model + block_d,
            0 < block_d,
            d_model + block_d <= i32::MAX,
            0 <= embed_base,
            embed_base == token_id * d_model,
            embed_base + d_model <= i32::MAX,
            0 <= out_base,
            out_base == pid * d_model,
            out_base + d_model <= i32::MAX,
            t@.stores == token_embed_cells(
                pid as int,
                token_id as int,
                d_model as int,
                if d_start < d_model {
                    d_start as int
                } else {
                    d_model as int
                },
            ),
            t@.adds == Map::<(int, int), Expr>::empty(),
        decreases d_model + block_d - d_start,
    {
        let row: Tile = t.load_masked(1, embed_base, d_start, d_model, block_d);
        t.store_masked(2, out_base, d_start, d_model, &row);
        proof {
            let end = if d_start + block_d < d_model {
                d_start + block_d
            } else {
                d_model as int
            };
            assert(t@.stores =~= token_embed_cells(
                pid as int,
                token_id as int,
                d_model as int,
                end,
            ));
        }
        d_start = d_start + block_d;
    }
    t
}

/// Token embedding forward, one block, with the ids that it reads: position `pid` gets
/// the row of the table that `ids[pid]` names, a float whose fraction is cut off.
pub fn token_embed_gather(
    ids: &[F32Bits],
    pid: i32,
    block_d: i32,
    seq_len: i32,
    d_model: i32,
) -> (t: Trace)
    requires
        0 <= pid < ids@.len(),
        fits_i32(ids@[pid as int]),
        token_embed_launch(
            pid,
            truncated_f32(ids@[pid as int]) as i32,
            block_d,
            seq_len,
            d_model,
        ),
    ensures
        t@ == (TraceView {
            stores: token_embed_cells(
                pid as int,
                truncated_f32(ids@[pid as int]),
                d_model as int,
                d_model as int,
            ),
            adds: Map::empty(),
        }),
{
    let token_id: i32 = f32_to_i32(ids[pid as usize]).unwrap();
    token_embed_forward(pid, token_id, block_d, seq_len, d_model)
}

/// A launch sets every cell of the output once: column `n` of row `r` is set by block
/// `r` and no other, to the column of the token's row of the table.
pub proof fn lookup_sets_every_cell(r: int, n: int, pid: int, token_id: int, d_model: int)
    requires
        0 <= n < d_model,
    ensures
        token_embed_cells(pid, token_id, d_model, d_model).dom().contains((2, r * d_model + n))
            <==> pid == r,
        token_embed_cells(r, token_id, d_model, d_model)[(2, r * d_model + n)] == at(
            1,
            token_id * d_model + n,
        ),
{
    if pid < r {
        assert(pid * d_model + d_model <= r * d_model) by (nonlinear_arith)
            requires
                pid + 1 <= r,
                d_model > 0,
        ;
    } else if r < pid {
        assert(r * d_model + d_model <= pid * d_model) by (nonlinear_arith)
            requires
                r + 1 <= pid,
                d_model > 0,
        ;
    }
}

} // verus!
