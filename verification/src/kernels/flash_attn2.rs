//! Flash Attention 2, bidirectional and causal.
//!
//! Layout: `[BH, N_CTX, HEAD_DIM]` where `BH = BATCH × N_HEADS`.
//!
//! **Forward**
//! - inputs: `q [BH, Nq, D]`, `k [BH, Nk, D]`, `v [BH, Nk, D]`
//! - output: `o [BH, Nq, D]`
//! - cache: `l [BH, Nq]` (log-sum-exp, saved for backward)
//!
//! **Backward**: one block per query row. Each block computes `dQ[q]` and
//! atomically accumulates into `dK[k]` and `dV[k]` for every `k`; both must be
//! zero before the launch. It serves self-attention (`Nq = Nk`) and
//! cross-attention (`Nq ≠ Nk`).

use vstd::prelude::*;

use crate::cast::{low_i32, low_u32, to_i32, to_u32};
use crate::graph::{copy_shape, CustomOp, Shape};
use crate::ieee::{F32Bits, F32_NEG_INFINITY};
use crate::kernels::index::{lemma_offset3_bounds, lemma_row_offset, offset3};
use crate::kernels::launch::{block_dim, Dim3, KernelArg, KernelId, Lowered, RuntimeOp, Slot};
use crate::kernels::tile::{
    at, filled, sum_of, tile_full, tile_map, tile_sum, tile_zip, with_run, with_run_added, zero,
    BinOp, Expr, Tile, Trace, TraceView, UnOp,
};

verus! {

// ---------------------------------------------------------------------------
// Kernels
// ---------------------------------------------------------------------------
/// One block of an attention launch: query row `pos` of batch-head `bh`, with its
/// extents.
#[derive(Clone, Copy, Debug, PartialEq, Eq, Structural)]
pub struct AttnBlock {
    pub pos: i32,
    pub bh: i32,
    pub head_dim: i32,
    pub n_ctx_q: i32,
    pub n_ctx_k: i32,
}

impl AttnBlock {
    /// The block belongs to a grid `(n_ctx_q, BH, 1)`, and the tensors have no more
    /// cells than an offset can name.
    pub open spec fn launched(self) -> bool {
        &&& 0 <= self.pos < self.n_ctx_q
        &&& 0 <= self.bh
        &&& 0 < self.head_dim
        &&& 0 <= self.n_ctx_k
        &&& (self.bh + 1) * self.n_ctx_q * self.head_dim <= i32::MAX
        &&& (self.bh + 1) * self.n_ctx_k * self.head_dim <= i32::MAX
    }

    /// The first cell of the query row.
    pub open spec fn q_row(self) -> int {
        offset3(self.bh as int, self.pos as int, 0, self.n_ctx_q as int, self.head_dim as int)
    }

    /// The first cell of the key and value rows of this batch-head.
    pub open spec fn kv_base(self) -> int {
        self.bh * self.n_ctx_k * self.head_dim
    }

    /// The first cell of key and value row `k`.
    pub open spec fn kv_row(self, k: int) -> int {
        self.kv_base() + k * self.head_dim
    }

    /// The cell of the query row's log-sum-exp.
    pub open spec fn l_row(self) -> int {
        self.bh * self.n_ctx_q + self.pos
    }

    /// The lanes `x[d] · y[d]` of the rows at `x` and `y`.
    pub open spec fn products(self, xbuf: int, x: int, ybuf: int, y: int) -> Seq<Expr> {
        Seq::new(self.head_dim as nat, |d: int| at(xbuf, x + d).times(at(ybuf, y + d)))
    }

    /// Key row `k` lies in the future of the query.
    pub open spec fn is_future(self, k: int) -> bool {
        k > self.pos
    }

    /// `⟨q, k⟩ · softmax_scale`, for the argument position `scale`.
    pub open spec fn score(self, k: int, scale: usize) -> Expr {
        sum_of(self.products(0, self.q_row(), 1, self.kv_row(k))).times(Expr::Arg(scale))
    }

    /// The score of key row `k`; a future one gets the mask value.
    pub open spec fn masked_score(self, k: int) -> Expr {
        if self.is_future(k) {
            Expr::Arg(8)
        } else {
            self.score(k, 7)
        }
    }

    /// The running maximum over the first `k` key rows.
    pub open spec fn running_max(self, k: nat) -> Expr
        decreases k,
    {
        if k == 0 {
            Expr::Arg(8)
        } else {
            self.running_max((k - 1) as nat).maximum(self.masked_score(k - 1))
        }
    }

    /// `exp(m_old − m_new)` for key row `k`: the factor that moves earlier terms to the
    /// new maximum.
    pub open spec fn rescale(self, k: nat) -> Expr {
        self.running_max(k).minus(self.running_max(k + 1)).apply(UnOp::Exp)
    }

    /// `exp(score − m_new)` for key row `k`.
    pub open spec fn weight(self, k: nat) -> Expr {
        self.masked_score(k as int).minus(self.running_max(k + 1)).apply(UnOp::Exp)
    }

    /// The running sum of weights over the first `k` key rows.
    pub open spec fn running_sum(self, k: nat) -> Expr
        decreases k,
    {
        if k == 0 {
            zero()
        } else {
            let j = (k - 1) as nat;
            self.rescale(j).times(self.running_sum(j)).plus(self.weight(j))
        }
    }

    /// The running weighted sum of column `d` over the first `k` value rows.
    pub open spec fn running_acc(self, k: nat, d: int) -> Expr
        decreases k,
    {
        if k == 0 {
            zero()
        } else {
            let j = (k - 1) as nat;
            self.rescale(j).times(self.running_acc(j, d)).plus(
                self.weight(j).times(at(2, self.kv_row(j as int) + d)),
            )
        }
    }

    /// Column `d` of the output row.
    pub open spec fn attended(self, d: int) -> Expr {
        self.running_acc(self.n_ctx_k as nat, d).over(self.running_sum(self.n_ctx_k as nat))
    }

    /// The saved log-sum-exp, the mean over the lanes.
    pub open spec fn log_sum_exp(self) -> Expr {
        let n = self.n_ctx_k as nat;
        let lane = self.running_max(n).plus(self.running_sum(n).apply(UnOp::Log));
        sum_of(filled(self.head_dim as nat, lane)).over(Expr::Int(self.head_dim))
    }

    /// What the block of [`flash_attn2_causal_fwd`] stores: the output row in buffer 3
    /// and its log-sum-exp in buffer 4.
    pub open spec fn forward_cells(self) -> Map<(int, int), Expr> {
        with_run(
            with_run(
                Map::empty(),
                3,
                self.q_row(),
                Seq::new(self.head_dim as nat, |d: int| self.attended(d)),
            ),
            4,
            self.l_row(),
            seq![self.log_sum_exp()],
        )
    }

    /// `L_q`, the log-sum-exp that the forward pass saved.
    pub open spec fn saved_lse(self) -> Expr {
        sum_of(seq![at(5, self.l_row())])
    }

    /// `D_q = ⟨O_q, dO_q⟩`.
    pub open spec fn output_dot(self) -> Expr {
        sum_of(self.products(3, self.q_row(), 4, self.q_row()))
    }

    /// `p_qk = exp(⟨q, k⟩ · scale − L_q)`, the recomputed attention weight; zero for a
    /// future key row of a causal pass.
    pub open spec fn probability(self, causal: bool, k: int) -> Expr {
        if causal && self.is_future(k) {
            zero()
        } else {
            self.score(k, 11).minus(self.saved_lse()).apply(UnOp::Exp)
        }
    }

    /// `dS_qk = p · (⟨dO_q, v⟩ − D_q)`.
    pub open spec fn score_gradient(self, causal: bool, k: int) -> Expr {
        let dov = sum_of(self.products(4, self.q_row(), 2, self.kv_row(k)));
        self.probability(causal, k).times(dov.minus(self.output_dot()))
    }

    /// Column `d` of the query gradient after the first `k` key rows.
    pub open spec fn query_gradient(self, causal: bool, k: nat, d: int) -> Expr
        decreases k,
    {
        if k == 0 {
            zero()
        } else {
            self.query_gradient(causal, (k - 1) as nat, d).plus(
                self.score_gradient(causal, k - 1).times(at(1, self.kv_row(k - 1) + d)).times(
                    Expr::Arg(11),
                ),
            )
        }
    }

    /// What is added to column `d` of value gradient row `k`: `p · dO_q`.
    pub open spec fn value_gradient(self, causal: bool, k: int, d: int) -> Expr {
        self.probability(causal, k).times(at(4, self.q_row() + d))
    }

    /// What is added to column `d` of key gradient row `k`: `dS · q · scale`.
    pub open spec fn key_gradient(self, causal: bool, k: int, d: int) -> Expr {
        self.score_gradient(causal, k).times(at(0, self.q_row() + d)).times(Expr::Arg(11))
    }

    /// What a backward block stores: the query gradient row, in buffer 6.
    pub open spec fn backward_stores(self, causal: bool) -> Map<(int, int), Expr> {
        with_run(
            Map::empty(),
            6,
            self.q_row(),
            Seq::new(
                self.head_dim as nat,
                |d: int| self.query_gradient(causal, self.n_ctx_k as nat, d),
            ),
        )
    }

    /// What a backward block adds for the first `k` key rows: to the key gradient in
    /// buffer 7 and to the value gradient in buffer 8.
    pub open spec fn backward_adds(self, causal: bool, k: nat) -> Map<(int, int), Expr> {
        let c = self.head_dim as int;
        let base = self.kv_base();
        Map::new(
            |x: (int, int)| (x.0 == 7 || x.0 == 8) && base <= x.1 < self.kv_row(k as int),
            |x: (int, int)|
                if x.0 == 7 {
                    self.key_gradient(causal, (x.1 - base) / c, (x.1 - base) % c)
                } else {
                    self.value_gradient(causal, (x.1 - base) / c, (x.1 - base) % c)
                },
        )
    }

    /// The additions for one more key row.
    proof fn lemma_backward_adds(
        self,
        causal: bool,
        k: nat,
        dv: Seq<Expr>,
        dk: Seq<Expr>,
    )
        requires
            self.launched(),
            k < self.n_ctx_k,
            dv == Seq::new(
                self.head_dim as nat,
                |d: int| self.value_gradient(causal, k as int, d),
            ),
            dk == Seq::new(self.head_dim as nat, |d: int| self.key_gradient(causal, k as int, d)),
        ensures
            with_run_added(
                with_run_added(self.backward_adds(causal, k), 8, self.kv_row(k as int), dv),
                7,
                self.kv_row(k as int),
                dk,
            ) == self.backward_adds(causal, k + 1),
    {
        let before = self.backward_adds(causal, k);
        let row = self.kv_row(k as int);
        let base = self.kv_base();
        let c = self.head_dim as int;
        let lhs = with_run_added(with_run_added(before, 8, row, dv), 7, row, dk);
        let rhs = self.backward_adds(causal, k + 1);
        self.lemma_kv_row(k as int);
        assert forall|x: (int, int)| row <= x.1 < row + c implies #[trigger] ((x.1 - base) / c) == k
            && (x.1 - base) % c == x.1 - row by {
            vstd::arithmetic::div_mod::lemma_fundamental_div_mod_converse(
                x.1 - base,
                c,
                k as int,
                x.1 - row,
            );
        }
        assert(lhs.dom() =~= rhs.dom());
        assert forall|x: (int, int)| lhs.dom().contains(x) implies #[trigger] lhs[x] == rhs[x] by {
            if row <= x.1 < row + c {
                assert((x.1 - base) / c == k);
            }
        }
        assert(lhs =~= rhs);
    }

    /// The offsets of the block fit.
    pub proof fn lemma_launched(self)
        requires
            self.launched(),
        ensures
            0 <= self.bh * self.n_ctx_q <= i32::MAX,
            0 <= self.bh * self.n_ctx_q * self.head_dim <= i32::MAX,
            0 <= self.pos * self.head_dim <= i32::MAX,
            self.bh * self.n_ctx_q * self.head_dim + self.pos * self.head_dim == self.q_row(),
            self.q_row() + self.head_dim <= i32::MAX,
            0 <= self.bh * self.n_ctx_k <= i32::MAX,
            0 <= self.kv_base() <= i32::MAX,
            self.l_row() + 1 <= i32::MAX,
            self.kv_base() + self.n_ctx_k * self.head_dim <= i32::MAX,
    {
        let (p, b, c) = (self.pos as int, self.bh as int, self.head_dim as int);
        let (nq, nk) = (self.n_ctx_q as int, self.n_ctx_k as int);
        lemma_offset3_bounds(b, p, c, b + 1, nq, c);
        lemma_row_offset(b, p, nq, c);
        lemma_row_offset(b, nk, nk, c);
        assert(0 <= b * nq && 0 <= b * nq * c && 0 <= p * c && 0 <= b * nk && 0 <= b * nk * c)
            by (nonlinear_arith)
            requires
                0 <= b,
                0 <= nq,
                0 <= nk,
                0 <= p,
                0 < c,
        ;
        assert(b * nq <= b * nq * c && b * nk <= b * nk * c) by (nonlinear_arith)
            requires
                0 <= b * nq,
                0 <= b * nk,
                0 < c,
        ;
        assert((b + 1) * nk * c == b * nk * c + nk * c) by (nonlinear_arith);
        assert((b + 1) * nq * c >= (b + 1) * nq) by (nonlinear_arith)
            requires
                0 <= b,
                0 <= nq,
                0 < c,
        ;
        assert((b + 1) * nq == b * nq + nq) by (nonlinear_arith);
    }

    /// The offsets of key row `k` fit.
    pub proof fn lemma_kv_row(self, k: int)
        requires
            self.launched(),
            0 <= k < self.n_ctx_k,
        ensures
            0 <= k * self.head_dim <= i32::MAX,
            0 <= self.kv_row(k),
            self.kv_row(k) + self.head_dim <= self.kv_base() + self.n_ctx_k * self.head_dim,
            self.kv_row(k) + self.head_dim <= i32::MAX,
            self.kv_row(k + 1) == self.kv_row(k) + self.head_dim,
    {
        self.lemma_launched();
        let (c, nk) = (self.head_dim as int, self.n_ctx_k as int);
        assert(0 <= k * c && (k + 1) * c <= nk * c) by (nonlinear_arith)
            requires
                0 <= k < nk,
                0 < c,
        ;
        assert((k + 1) * c == k * c + c) by (nonlinear_arith);
    }
}

/// Causal Flash Attention 2 forward (decoder self-attention), one block: one query row.
/// Future key positions (`k_row > pid_m`) get the mask value `neg_inf`.
///
/// Arguments: `q` (0), `k` (1), `v` (2), `o` (3), `l` (4), `n_ctx_q` (5), `n_ctx_k`
/// (6), `softmax_scale` (7), `neg_inf` (8).
pub fn flash_attn2_causal_fwd(
    pid_m: i32,
    pid_bh: i32,
    head_dim: i32,
    n_ctx_q: i32,
    n_ctx_k: i32,
) -> (t: Trace)
    requires
        (AttnBlock { pos: pid_m, bh: pid_bh, head_dim, n_ctx_q, n_ctx_k }).launched(),
    ensures
        t@ == (TraceView {
            stores: (AttnBlock {
                pos: pid_m,
                bh: pid_bh,
                head_dim,
                n_ctx_q,
                n_ctx_k,
            }).forward_cells(),
            adds: Map::empty(),
        }),
{
    let ghost blk = AttnBlock { pos: pid_m, bh: pid_bh, head_dim, n_ctx_q, n_ctx_k };
    proof {
        blk.lemma_launched();
    }
    let lanes: usize = head_dim as usize;
    let kv_bh_base: i32 = pid_bh * n_ctx_k * head_dim;
    let q_row_base: i32 = pid_bh * n_ctx_q * head_dim + pid_m * head_dim;
    let l_row_base: i32 = pid_bh * n_ctx_q + pid_m;

    let scale_t: Tile = tile_full(lanes, &Expr::Arg(7));

    let mut t = Trace::new();
    let q_vec: Tile = t.load_row(0, q_row_base, head_dim);

    let mut acc: Tile = tile_full(lanes, &Expr::Const(0));
    let mut m_i: Tile = tile_full(lanes, &Expr::Arg(8));
    let mut l_i: Tile = tile_full(lanes, &Expr::Const(0));
    assert(acc@ =~= Seq::new(head_dim as nat, |d: int| blk.running_acc(0, d)));

    let mut k_row: i32 = 0;
    while k_row < n_ctx_k
        invariant
            blk == (AttnBlock { pos: pid_m, bh: pid_bh, head_dim, n_ctx_q, n_ctx_k }),
            blk.launched(),
            lanes == head_dim,
            0 <= k_row <= n_ctx_k,
            kv_bh_base == blk.kv_base(),
            0 <= kv_bh_base,
            t@ == (TraceView { stores: Map::empty(), adds: Map::empty() }),
            q_vec@ == t@.row(0, blk.q_row(), head_dim as nat),
            scale_t@ == filled(head_dim as nat, Expr::Arg(7)),
            m_i@ == filled(head_dim as nat, blk.running_max(k_row as nat)),
            l_i@ == filled(head_dim as nat, blk.running_sum(k_row as nat)),
            acc@ == Seq::new(head_dim as nat, |d: int| blk.running_acc(k_row as nat, d)),
        decreases n_ctx_k - k_row,
    {
        proof {
            blk.lemma_kv_row(k_row as int);
        }
        let kv_row_base: i32 = kv_bh_base + k_row * head_dim;

        let k_vec: Tile = t.load_row(1, kv_row_base, head_dim);
        let v_vec: Tile = t.load_row(2, kv_row_base, head_dim);

        let products: Tile = tile_zip(BinOp::Mul, &q_vec, &k_vec);
        assert(products@ =~= blk.products(0, blk.q_row(), 1, blk.kv_row(k_row as int)));
        let qk: Tile = tile_zip(BinOp::Mul, &tile_full(lanes, &tile_sum(&products)), &scale_t);

        // Causal mask: future positions get -inf
        let qk_masked: Tile = if k_row > pid_m {
            tile_full(lanes, &Expr::Arg(8))
        } else {
            qk
        };
        assert(qk_masked@ =~= filled(head_dim as nat, blk.masked_score(k_row as int)));

        let m_new: Tile = tile_zip(BinOp::Max, &m_i, &qk_masked);
        assert(m_new@ =~= filled(head_dim as nat, blk.running_max((k_row + 1) as nat)));
        let exp_diff: Tile = tile_map(UnOp::Exp, &tile_zip(BinOp::Sub, &m_i, &m_new));
        assert(exp_diff@ =~= filled(head_dim as nat, blk.rescale(k_row as nat)));
        let p: Tile = tile_map(UnOp::Exp, &tile_zip(BinOp::Sub, &qk_masked, &m_new));
        assert(p@ =~= filled(head_dim as nat, blk.weight(k_row as nat)));

        l_i = tile_zip(BinOp::Add, &tile_zip(BinOp::Mul, &exp_diff, &l_i), &p);
        assert(l_i@ =~= filled(head_dim as nat, blk.running_sum((k_row + 1) as nat)));
        acc = tile_zip(
            BinOp::Add,
            &tile_zip(BinOp::Mul, &exp_diff, &acc),
            &tile_zip(BinOp::Mul, &p, &v_vec),
        );
        assert(acc@ =~= Seq::new(
            head_dim as nat,
            |d: int| blk.running_acc((k_row + 1) as nat, d),
        ));
        m_i = m_new;

        k_row += 1;
    }

    let o_row: Tile = tile_zip(BinOp::Div, &acc, &l_i);
    let log_l: Tile = tile_zip(BinOp::Add, &m_i, &tile_map(UnOp::Log, &l_i));
    let ghost lane = blk.running_max(n_ctx_k as nat).plus(
        blk.running_sum(n_ctx_k as nat).apply(UnOp::Log),
    );
    assert(log_l@ =~= filled(head_dim as nat, lane));
    let l_save_sum: Expr = tile_sum(&log_l);
    let l_save: Expr = Expr::Bin(BinOp::Div, Box::new(l_save_sum), Box::new(Expr::Int(head_dim)));
    let l_tile: Tile = tile_full(1, &l_save);

    assert(o_row@ =~= Seq::new(head_dim as nat, |d: int| blk.attended(d)));
    assert(l_tile@ =~= seq![blk.log_sum_exp()]);
    t.store_row(3, q_row_base, &o_row);
    t.store_row(4, l_row_base, &l_tile);
    t
}

/// The backward pass of one block, causal or not. One block per query row: it
/// computes `dQ[q]` and adds to `dK[k]`, `dV[k]` for every `k`.
fn attention_backward(
    causal: bool,
    pid_q: i32,
    pid_bh: i32,
    head_dim: i32,
    n_ctx_q: i32,
    n_ctx_k: i32,
) -> (t: Trace)
    requires
        (AttnBlock { pos: pid_q, bh: pid_bh, head_dim, n_ctx_q, n_ctx_k }).launched(),
    ensures
        ({
            let blk = AttnBlock { pos: pid_q, bh: pid_bh, head_dim, n_ctx_q, n_ctx_k };
            &&& t@.stores == blk.backward_stores(causal)
            &&& t@.adds == blk.backward_adds(causal, n_ctx_k as nat)
        }),
{
    let ghost blk = AttnBlock { pos: pid_q, bh: pid_bh, head_dim, n_ctx_q, n_ctx_k };
    proof {
        blk.lemma_launched();
    }
    let lanes: usize = head_dim as usize;
    let q_row_base: i32 = pid_bh * n_ctx_q * head_dim + pid_q * head_dim;
    let kv_bh_base: i32 = pid_bh * n_ctx_k * head_dim;
    let l_row_base: i32 = pid_bh * n_ctx_q + pid_q;

    let scale: Tile = tile_full(lanes, &Expr::Arg(11));

    // Load Q[q], O[q], dO[q], L[q] for this block's query row.
    let mut t = Trace::new();
    let q_vec: Tile = t.load_row(0, q_row_base, head_dim);
    let o_vec: Tile = t.load_row(3, q_row_base, head_dim);
    let do_vec: Tile = t.load_row(4, q_row_base, head_dim);
    let l_raw: Tile = t.load_row(5, l_row_base, 1);
    assert(l_raw@ =~= seq![at(5, blk.l_row())]);
    let l_q: Tile = tile_full(lanes, &tile_sum(&l_raw));

    // D_q = rowsum(O_q · dO_q)
    let o_do: Tile = tile_zip(BinOp::Mul, &o_vec, &do_vec);
    assert(o_do@ =~= blk.products(3, blk.q_row(), 4, blk.q_row()));
    let d_q: Tile = tile_full(lanes, &tile_sum(&o_do));

    let mut dq_acc: Tile = tile_full(lanes, &Expr::Const(0));
    assert(dq_acc@ =~= Seq::new(head_dim as nat, |d: int| blk.query_gradient(causal, 0, d)));
    assert(t@.adds =~= blk.backward_adds(causal, 0));

    let mut k_row: i32 = 0;
    while k_row < n_ctx_k
        invariant
            blk == (AttnBlock { pos: pid_q, bh: pid_bh, head_dim, n_ctx_q, n_ctx_k }),
            blk.launched(),
            lanes == head_dim,
            0 <= k_row <= n_ctx_k,
            kv_bh_base == blk.kv_base(),
            0 <= kv_bh_base,
            q_vec@ == Seq::new(head_dim as nat, |d: int| at(0, blk.q_row() + d)),
            do_vec@ == Seq::new(head_dim as nat, |d: int| at(4, blk.q_row() + d)),
            scale@ == filled(head_dim as nat, Expr::Arg(11)),
            l_q@ == filled(head_dim as nat, blk.saved_lse()),
            d_q@ == filled(head_dim as nat, blk.output_dot()),
            dq_acc@ == Seq::new(
                head_dim as nat,
                |d: int| blk.query_gradient(causal, k_row as nat, d),
            ),
            t@.stores == Map::<(int, int), Expr>::empty(),
            t@.adds == blk.backward_adds(causal, k_row as nat),
        decreases n_ctx_k - k_row,
    {
        proof {
            blk.lemma_kv_row(k_row as int);
        }
        let kv_row_base: i32 = kv_bh_base + k_row * head_dim;
        let ghost row = blk.kv_row(k_row as int);

        let k_vec: Tile = t.load_row(1, kv_row_base, head_dim);
        let v_vec: Tile = t.load_row(2, kv_row_base, head_dim);

        // Recompute p_qk = exp(Q_q · K_k * scale - L_q)
        let products: Tile = tile_zip(BinOp::Mul, &q_vec, &k_vec);
        assert(products@ =~= blk.products(0, blk.q_row(), 1, row));
        let qk: Tile = tile_zip(BinOp::Mul, &tile_full(lanes, &tile_sum(&products)), &scale);
        let p: Tile = if causal && k_row > pid_q {
            tile_full(lanes, &Expr::Const(0))
        } else {
            tile_map(UnOp::Exp, &tile_zip(BinOp::Sub, &qk, &l_q))
        };
        assert(p@ =~= filled(head_dim as nat, blk.probability(causal, k_row as int)));

        // dS_qk = p * (dO_q · V_k - D_q)
        let do_v: Tile = tile_zip(BinOp::Mul, &do_vec, &v_vec);
        assert(do_v@ =~= blk.products(4, blk.q_row(), 2, row));
        let do_dot_v: Tile = tile_full(lanes, &tile_sum(&do_v));
        let ds: Tile = tile_zip(BinOp::Mul, &p, &tile_zip(BinOp::Sub, &do_dot_v, &d_q));
        assert(ds@ =~= filled(head_dim as nat, blk.score_gradient(causal, k_row as int)));

        // dQ += ds * K_k * scale
        let dq: Tile = tile_zip(BinOp::Mul, &tile_zip(BinOp::Mul, &ds, &k_vec), &scale);
        dq_acc = tile_zip(BinOp::Add, &dq_acc, &dq);
        assert(dq_acc@ =~= Seq::new(
            head_dim as nat,
            |d: int| blk.query_gradient(causal, (k_row + 1) as nat, d),
        ));

        // dV[k] += p * dO_q, dK[k] += ds * Q_q * scale
        let dv: Tile = tile_zip(BinOp::Mul, &p, &do_vec);
        let dk: Tile = tile_zip(BinOp::Mul, &tile_zip(BinOp::Mul, &ds, &q_vec), &scale);
        assert(dv@ =~= Seq::new(
            head_dim as nat,
            |d: int| blk.value_gradient(causal, k_row as int, d),
        ));
        assert(dk@ =~= Seq::new(
            head_dim as nat,
            |d: int| blk.key_gradient(causal, k_row as int, d),
        ));
        t.add_row(8, kv_row_base, &dv);
        t.add_row(7, kv_row_base, &dk);
        proof {
            blk.lemma_backward_adds(causal, k_row as nat, dv@, dk@);
        }

        k_row += 1;
    }

    t.store_row(6, q_row_base, &dq_acc);
    t
}

/// Causal Flash Attention 2 backward, one block: one query row. Future key positions
/// contribute nothing.
///
/// Arguments: `q` (0), `k` (1), `v` (2), `o` (3), `do` (4), `l` (5), `dq` (6), `dk`
/// (7), `dv` (8), `n_ctx_q` (9), `n_ctx_k` (10), `softmax_scale` (11).
pub fn flash_attn2_causal_bwd(
    pid_q: i32,
    pid_bh: i32,
    head_dim: i32,
    n_ctx_q: i32,
    n_ctx_k: i32,
) -> (t: Trace)
    requires
        (AttnBlock { pos: pid_q, bh: pid_bh, head_dim, n_ctx_q, n_ctx_k }).launched(),
    ensures
        ({
            let blk = AttnBlock { pos: pid_q, bh: pid_bh, head_dim, n_ctx_q, n_ctx_k };
            &&& t@.stores == blk.backward_stores(true)
            &&& t@.adds == blk.backward_adds(true, n_ctx_k as nat)
        }),
{
    attention_backward(true, pid_q, pid_bh, head_dim, n_ctx_q, n_ctx_k)
}

/// Flash Attention 2 backward, one block: one query row.
///
/// Arguments: as for [`flash_attn2_causal_bwd`].
pub fn flash_attn2_backward(
    pid_q: i32,
    pid_bh: i32,
    head_dim: i32,
    n_ctx_q: i32,
    n_ctx_k: i32,
) -> (t: Trace)
    requires
        (AttnBlock { pos: pid_q, bh: pid_bh, head_dim, n_ctx_q, n_ctx_k }).launched(),
    ensures
        ({
            let blk = AttnBlock { pos: pid_q, bh: pid_bh, head_dim, n_ctx_q, n_ctx_k };
            &&& t@.stores == blk.backward_stores(false)
            &&& t@.adds == blk.backward_adds(false, n_ctx_k as nat)
        }),
{
    attention_backward(false, pid_q, pid_bh, head_dim, n_ctx_q, n_ctx_k)
}

// ---------------------------------------------------------------------------
// Runtime ops
// ---------------------------------------------------------------------------
/// The forward arguments of both attention kernels.
pub open spec fn attention_args(softmax_scale: F32Bits, nq: usize, nk: usize) -> Seq<KernelArg> {
    seq![
        KernelArg::Ptr(Slot::Input(0)),
        KernelArg::Ptr(Slot::Input(1)),
        KernelArg::Ptr(Slot::Input(2)),
        KernelArg::Ptr(Slot::Output),
        KernelArg::Ptr(Slot::Param(0)),
        KernelArg::I32(low_i32(nq as int) as i32),
        KernelArg::I32(low_i32(nk as int) as i32),
        KernelArg::F32(softmax_scale),
        KernelArg::F32(F32_NEG_INFINITY),
    ]
}

/// The backward arguments of both attention kernels.
pub open spec fn attention_backward_args(softmax_scale: F32Bits, nq: usize, nk: usize) -> Seq<
    KernelArg,
> {
    seq![
        KernelArg::Ptr(Slot::Input(0)),
        KernelArg::Ptr(Slot::Input(1)),
        KernelArg::Ptr(Slot::Input(2)),
        KernelArg::Ptr(Slot::Output),
        KernelArg::Ptr(Slot::GradOutput),
        KernelArg::Ptr(Slot::Param(0)),
        KernelArg::Ptr(Slot::GradInput(0)),
        KernelArg::Ptr(Slot::GradInput(1)),
        KernelArg::Ptr(Slot::GradInput(2)),
        KernelArg::I32(low_i32(nq as int) as i32),
        KernelArg::I32(low_i32(nk as int) as i32),
        KernelArg::F32(softmax_scale),
    ]
}

fn pack_attention_args(softmax_scale: F32Bits, nq: usize, nk: usize) -> (args: Vec<KernelArg>)
    ensures
        args@ == attention_args(softmax_scale, nq, nk),
{
    let n_ctx_q: i32 = to_i32(nq);
    let n_ctx_k: i32 = to_i32(nk);
    vec![
        KernelArg::Ptr(Slot::Input(0)),
        KernelArg::Ptr(Slot::Input(1)),
        KernelArg::Ptr(Slot::Input(2)),
        KernelArg::Ptr(Slot::Output),
        KernelArg::Ptr(Slot::Param(0)),
        KernelArg::I32(n_ctx_q),
        KernelArg::I32(n_ctx_k),
        KernelArg::F32(softmax_scale),
        KernelArg::F32(F32_NEG_INFINITY),
    ]
}

fn pack_attention_backward_args(softmax_scale: F32Bits, nq: usize, nk: usize) -> (args: Vec<
    KernelArg,
>)
    ensures
        args@ == attention_backward_args(softmax_scale, nq, nk),
{
    let n_ctx_q: i32 = to_i32(nq);
    let n_ctx_k: i32 = to_i32(nk);
    vec![
        KernelArg::Ptr(Slot::Input(0)),
        KernelArg::Ptr(Slot::Input(1)),
        KernelArg::Ptr(Slot::Input(2)),
        KernelArg::Ptr(Slot::Output),
        KernelArg::Ptr(Slot::GradOutput),
        KernelArg::Ptr(Slot::Param(0)),
        KernelArg::Ptr(Slot::GradInput(0)),
        KernelArg::Ptr(Slot::GradInput(1)),
        KernelArg::Ptr(Slot::GradInput(2)),
        KernelArg::I32(n_ctx_q),
        KernelArg::I32(n_ctx_k),
        KernelArg::F32(softmax_scale),
    ]
}

/// Runtime op of bidirectional attention.
#[derive(Clone, Copy, Debug, PartialEq, Eq, Structural)]
pub struct FlashAttn2RuntimeOp {
    pub softmax_scale: F32Bits,
}

impl FlashAttn2RuntimeOp {
    pub fn new(_head_dim: i32, softmax_scale: F32Bits) -> (r: Self)
        ensures
            r == (FlashAttn2RuntimeOp { softmax_scale }),
    {
        FlashAttn2RuntimeOp { softmax_scale }
    }

    /// Q, K and V.
    pub fn n_activation_inputs(&self) -> (n: usize)
        ensures
            n == 3,
    {
        3
    }

    /// One buffer, the log-sum-exp cache `[BH, Nq]`.
    pub fn param_shapes(&self, input_shapes: &[&[usize]]) -> (shapes: Vec<Vec<usize>>)
        requires
            input_shapes@.len() >= 1,
            input_shapes@[0]@.len() >= 2,
        ensures
            shapes@.len() == 1,
            shapes@[0]@ == seq![input_shapes@[0]@[0], input_shapes@[0]@[1]],
    {
        let bh: usize = input_shapes[0][0];
        let nq: usize = input_shapes[0][1];
        vec![vec![bh, nq]]
    }

    /// Arguments `(q, k, v, o, l, n_ctx_q, n_ctx_k, softmax_scale, -inf)`. The query
    /// length comes from the output `[BH, Nq, D]`, the key length from K.
    pub fn pack_args(&self, input_shapes: &[&[usize]], output_shape: &[usize]) -> (args: Vec<
        KernelArg,
    >)
        requires
            input_shapes@.len() >= 2,
            input_shapes@[1]@.len() >= 2,
            output_shape@.len() >= 2,
        ensures
            args@ == attention_args(
                self.softmax_scale,
                output_shape@[1],
                input_shapes@[1]@[1],
            ),
    {
        pack_attention_args(self.softmax_scale, output_shape[1], input_shapes[1][1])
    }

    pub fn block(&self) -> (b: Dim3)
        ensures
            b == block_dim(),
    {
        Dim3 { x: 128, y: 1, z: 1 }
    }

    /// One block per `(query row, batch-head)` pair.
    pub fn grid(&self, output_shape: &[usize]) -> (g: Dim3)
        requires
            output_shape@.len() >= 2,
        ensures
            g.x == low_u32(output_shape@[1] as int),
            g.y == low_u32(output_shape@[0] as int),
            g.z == 1,
    {
        Dim3 { x: to_u32(output_shape[1]), y: to_u32(output_shape[0]), z: 1 }
    }

    pub fn has_backward(&self) -> (b: bool)
        ensures
            b,
    {
        true
    }

    /// Arguments `(q, k, v, o, do, l, dq, dk, dv, n_ctx_q, n_ctx_k, softmax_scale)`.
    pub fn pack_backward_args(&self, input_shapes: &[&[usize]], output_shape: &[usize]) -> (args:
        Vec<KernelArg>)
        requires
            input_shapes@.len() >= 2,
            input_shapes@[1]@.len() >= 2,
            output_shape@.len() >= 2,
        ensures
            args@ == attention_backward_args(
                self.softmax_scale,
                output_shape@[1],
                input_shapes@[1]@[1],
            ),
    {
        pack_attention_backward_args(self.softmax_scale, output_shape[1], input_shapes[1][1])
    }

    pub fn backward_block(&self) -> (b: Dim3)
        ensures
            b == block_dim(),
    {
        Dim3 { x: 128, y: 1, z: 1 }
    }

    pub fn backward_grid(&self, output_shape: &[usize]) -> (g: Dim3)
        requires
            output_shape@.len() >= 2,
        ensures
            g.x == low_u32(output_shape@[1] as int),
            g.y == low_u32(output_shape@[0] as int),
            g.z == 1,
    {
        self.grid(output_shape)
    }
}

/// Graph node of bidirectional attention.
///
/// Inputs `q [BH, Nq, HEAD_DIM]`, `k [BH, Nk, HEAD_DIM]`, `v [BH, Nk, HEAD_DIM]`;
/// output `o [BH, Nq, HEAD_DIM]`.
#[derive(Clone, Copy, Debug, PartialEq, Eq, Structural)]
pub struct FlashAttn2Op {
    pub head_dim: i32,
    pub softmax_scale: F32Bits,
}

/// The graph node for a head dimension and a softmax scale.
pub open spec fn flash_attn2_op(head_dim: usize, softmax_scale: F32Bits) -> FlashAttn2Op {
    FlashAttn2Op { head_dim: low_i32(head_dim as int) as i32, softmax_scale }
}

impl FlashAttn2Op {
    pub fn new(head_dim: usize, softmax_scale: F32Bits) -> (r: Self)
        ensures
            r == flash_attn2_op(head_dim, softmax_scale),
    {
        FlashAttn2Op { head_dim: to_i32(head_dim), softmax_scale }
    }

    pub fn custom_data(head_dim: usize, softmax_scale: F32Bits) -> (r: CustomOp)
        ensures
            r == CustomOp::FlashAttn2(flash_attn2_op(head_dim, softmax_scale)),
    {
        CustomOp::FlashAttn2(Self::new(head_dim, softmax_scale))
    }

    pub fn name(&self) -> (s: &'static str)
        ensures
            s@ == "flash_attn2"@,
    {
        "flash_attn2"
    }

    /// The shape of the queries.
    pub fn infer_output_shape(&self, input_shapes: &[&Shape]) -> (out: Shape)
        requires
            input_shapes@.len() >= 1,
        ensures
            out@ == input_shapes@[0]@,
    {
        copy_shape(input_shapes[0])
    }

    pub fn lower(&self) -> (l: Lowered)
        ensures
            l.kernel == (KernelId::FlashAttn2Forward { head_dim: self.head_dim }),
            l.runtime_op == RuntimeOp::FlashAttn2(
                FlashAttn2RuntimeOp { softmax_scale: self.softmax_scale },
            ),
    {
        Lowered {
            kernel: KernelId::FlashAttn2Forward { head_dim: self.head_dim },
            runtime_op: RuntimeOp::FlashAttn2(
                FlashAttn2RuntimeOp::new(self.head_dim, self.softmax_scale),
            ),
        }
    }

    pub fn lower_backward(&self) -> (k: KernelId)
        ensures
            k == (KernelId::FlashAttn2Backward { head_dim: self.head_dim }),
    {
        KernelId::FlashAttn2Backward { head_dim: self.head_dim }
    }
}

/// Runtime op of causal attention (decoder self-attention). Its arguments are those
/// of [`FlashAttn2RuntimeOp`].
#[derive(Clone, Copy, Debug, PartialEq, Eq, Structural)]
pub struct CausalFlashAttn2RuntimeOp {
    pub softmax_scale: F32Bits,
}

impl CausalFlashAttn2RuntimeOp {
    pub fn new(_head_dim: i32, softmax_scale: F32Bits) -> (r: Self)
        ensures
            r == (CausalFlashAttn2RuntimeOp { softmax_scale }),
    {
        CausalFlashAttn2RuntimeOp { softmax_scale }
    }

    /// Q, K and V.
    pub fn n_activation_inputs(&self) -> (n: usize)
        ensures
            n == 3,
    {
        3
    }

    /// One buffer, the log-sum-exp cache `[BH, Nq]`.
    pub fn param_shapes(&self, input_shapes: &[&[usize]]) -> (shapes: Vec<Vec<usize>>)
        requires
            input_shapes@.len() >= 1,
            input_shapes@[0]@.len() >= 2,
        ensures
            shapes@.len() == 1,
            shapes@[0]@ == seq![input_shapes@[0]@[0], input_shapes@[0]@[1]],
    {
        let bh: usize = input_shapes[0][0];
        let nq: usize = input_shapes[0][1];
        vec![vec![bh, nq]]
    }

    /// Arguments `(q, k, v, o, l, n_ctx_q, n_ctx_k, softmax_scale, -inf)`. The query
    /// length comes from the output `[BH, Nq, D]`, the key length from K.
    pub fn pack_args(&self, input_shapes: &[&[usize]], output_shape: &[usize]) -> (args: Vec<
        KernelArg,
    >)
        requires
            input_shapes@.len() >= 2,
            input_shapes@[1]@.len() >= 2,
            output_shape@.len() >= 2,
        ensures
            args@ == attention_args(
                self.softmax_scale,
                output_shape@[1],
                input_shapes@[1]@[1],
            ),
    {
        pack_attention_args(self.softmax_scale, output_shape[1], input_shapes[1][1])
    }

    pub fn block(&self) -> (b: Dim3)
        ensures
            b == block_dim(),
    {
        Dim3 { x: 128, y: 1, z: 1 }
    }

    /// One block per `(query row, batch-head)` pair.
    pub fn grid(&self, output_shape: &[usize]) -> (g: Dim3)
        requires
            output_shape@.len() >= 2,
        ensures
            g.x == low_u32(output_shape@[1] as int),
            g.y == low_u32(output_shape@[0] as int),
            g.z == 1,
    {
        Dim3 { x: to_u32(output_shape[1]), y: to_u32(output_shape[0]), z: 1 }
    }

    pub fn has_backward(&self) -> (b: bool)
        ensures
            b,
    {
        true
    }

    /// Arguments `(q, k, v, o, do, l, dq, dk, dv, n_ctx_q, n_ctx_k, softmax_scale)`.
    pub fn pack_backward_args(&self, input_shapes: &[&[usize]], output_shape: &[usize]) -> (args:
        Vec<KernelArg>)
        requires
            input_shapes@.len() >= 2,
            input_shapes@[1]@.len() >= 2,
            output_shape@.len() >= 2,
        ensures
            args@ == attention_backward_args(
                self.softmax_scale,
                output_shape@[1],
                input_shapes@[1]@[1],
            ),
    {
        pack_attention_backward_args(self.softmax_scale, output_shape[1], input_shapes[1][1])
    }

    pub fn backward_block(&self) -> (b: Dim3)
        ensures
            b == block_dim(),
    {
        Dim3 { x: 128, y: 1, z: 1 }
    }

    pub fn backward_grid(&self, output_shape: &[usize]) -> (g: Dim3)
        requires
            output_shape@.len() >= 2,
        ensures
            g.x == low_u32(output_shape@[1] as int),
            g.y == low_u32(output_shape@[0] as int),
            g.z == 1,
    {
        self.grid(output_shape)
    }
}

/// Graph node of causal attention (decoder self-attention).
///
/// Inputs `q [BH, Nq, HEAD_DIM]`, `k [BH, Nk, HEAD_DIM]`, `v [BH, Nk, HEAD_DIM]`;
/// output `o [BH, Nq, HEAD_DIM]`.
#[derive(Clone, Copy, Debug, PartialEq, Eq, Structural)]
pub struct CausalFlashAttn2Op {
    pub head_dim: i32,
    pub softmax_scale: F32Bits,
}

/// The graph node for a head dimension and a softmax scale.
pub open spec fn causal_flash_attn2_op(head_dim: usize, softmax_scale: F32Bits) -> CausalFlashAttn2Op {
    CausalFlashAttn2Op { head_dim: low_i32(head_dim as int) as i32, softmax_scale }
}

impl CausalFlashAttn2Op {
    pub fn new(head_dim: usize, softmax_scale: F32Bits) -> (r: Self)
        ensures
            r == causal_flash_attn2_op(head_dim, softmax_scale),
    {
        CausalFlashAttn2Op { head_dim: to_i32(head_dim), softmax_scale }
    }

    pub fn custom_data(head_dim: usize, softmax_scale: F32Bits) -> (r: CustomOp)
        ensures
            r == CustomOp::CausalFlashAttn2(causal_flash_attn2_op(head_dim, softmax_scale)),
    {
        CustomOp::CausalFlashAttn2(Self::new(head_dim, softmax_scale))
    }

    pub fn name(&self) -> (s: &'static str)
        ensures
            s@ == "causal_flash_attn2"@,
    {
        "causal_flash_attn2"
    }

    /// The shape of the queries.
    pub fn infer_output_shape(&self, input_shapes: &[&Shape]) -> (out: Shape)
        requires
            input_shapes@.len() >= 1,
        ensures
            out@ == input_shapes@[0]@,
    {
        copy_shape(input_shapes[0])
    }

    pub fn lower(&self) -> (l: Lowered)
        ensures
            l.kernel == (KernelId::FlashAttn2CausalFwd { head_dim: self.head_dim }),
            l.runtime_op == RuntimeOp::CausalFlashAttn2(
                CausalFlashAttn2RuntimeOp { softmax_scale: self.softmax_scale },
            ),
    {
        Lowered {
            kernel: KernelId::FlashAttn2CausalFwd { head_dim: self.head_dim },
            runtime_op: RuntimeOp::CausalFlashAttn2(
                CausalFlashAttn2RuntimeOp::new(self.head_dim, self.softmax_scale),
            ),
        }
    }

    pub fn lower_backward(&self) -> (k: KernelId)
        ensures
            k == (KernelId::FlashAttn2CausalBwd { head_dim: self.head_dim }),
    {
        KernelId::FlashAttn2CausalBwd { head_dim: self.head_dim }
    }
}

} // verus!
