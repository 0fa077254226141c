//! Flash Attention 2 in exact arithmetic: the online recurrence is the softmax.

use vstd::prelude::*;

use crate::kernels::exact::{
    accumulated, added, bin_value, each_once, eval, lemma_accumulated, lemma_sum_value,
    lemma_total_constant, lemma_total_eq, lemma_total_positive, lemma_total_scaled,
    lemma_total_window, lemma_zero_value, same_inputs, total, un_value, Model, Value,
};
use crate::kernels::flash_attn2::AttnBlock;
use crate::kernels::index::{lemma_offset3_decodes, lemma_row_offset, offset3};
use crate::kernels::reals::{
    lemma_prod_assoc, lemma_prod_comm, lemma_prod_zero, lemma_quot_cancel, lemma_quot_unique, prod,
    quot,
};
use crate::kernels::tile::{at, filled, sum_of, zero, BinOp, Expr, UnOp};

verus! {

/// The exponential turns sums into products and is positive.
pub open spec fn exponential(m: Model) -> bool {
    &&& forall|a: real, b: real|
        #![trigger prod((m.exp)(a), (m.exp)(b))]
        prod((m.exp)(a), (m.exp)(b)) == (m.exp)(a + b)
    &&& forall|a: real| #[trigger] (m.exp)(a) > 0real
}

/// The logarithm is the inverse of the exponential on positive numbers.
pub open spec fn logarithm(m: Model) -> bool {
    &&& forall|x: real| x > 0real ==> (m.exp)(#[trigger] (m.log)(x)) == x
    &&& forall|a: real| (m.log)(#[trigger] (m.exp)(a)) == a
}

impl AttnBlock {
    /// `⟨q, k⟩ · c`.
    pub open spec fn score_value(self, k: int, c: real, m: Model) -> real {
        prod(
            total(
                self.head_dim as nat,
                |d: int| prod((m.load)(0, self.q_row() + d), (m.load)(1, self.kv_row(k) + d)),
            ),
            c,
        )
    }

    /// How many of the first `k` key rows do not lie in the future.
    pub open spec fn visible(self, k: nat) -> nat {
        if k <= self.pos + 1 {
            k
        } else {
            (self.pos + 1) as nat
        }
    }

    /// `Σ exp(score)` over the visible key rows.
    pub open spec fn partition(self, c: real, m: Model) -> real {
        total(
            self.visible(self.n_ctx_k as nat),
            |j: int| (m.exp)(self.score_value(j, c, m)),
        )
    }

    /// `Σ exp(score) · v[d]` over the visible key rows.
    pub open spec fn weighted(self, d: int, c: real, m: Model) -> real {
        total(
            self.visible(self.n_ctx_k as nat),
            |j: int|
                prod(
                    (m.exp)(self.score_value(j, c, m)),
                    (m.load)(2, self.kv_row(j) + d),
                ),
        )
    }

    /// The dot product of two rows has the value that it says.
    proof fn lemma_products(self, xbuf: int, x: int, ybuf: int, y: int, m: Model)
        requires
            0 < self.head_dim,
            0 <= xbuf < 16,
            0 <= ybuf < 16,
            0 <= x,
            x + self.head_dim <= i32::MAX,
            0 <= y,
            y + self.head_dim <= i32::MAX,
        ensures
            eval(sum_of(self.products(xbuf, x, ybuf, y)), m) == Value::Fin(
                total(
                    self.head_dim as nat,
                    |d: int| prod((m.load)(xbuf, x + d), (m.load)(ybuf, y + d)),
                ),
            ),
    {
        let tile = self.products(xbuf, x, ybuf, y);
        let f = |d: int| prod((m.load)(xbuf, x + d), (m.load)(ybuf, y + d));
        assert forall|d: int| 0 <= d < tile.len() implies eval(#[trigger] tile[d], m) == Value::Fin(
            f(d),
        ) by {
            let (a, b) = (at(xbuf, x + d), at(ybuf, y + d));
            assert(eval(a, m) == Value::Fin((m.load)(xbuf, x + d)));
            assert(eval(b, m) == Value::Fin((m.load)(ybuf, y + d)));
            assert(tile[d] == a.times(b));
        }
        lemma_sum_value(tile, m, f);
    }

    /// A score has the value that it says.
    proof fn lemma_score(self, k: int, scale: usize, c: real, m: Model)
        requires
            self.launched(),
            0 <= k < self.n_ctx_k,
            (m.arg)(scale as int) == Value::Fin(c),
        ensures
            eval(self.score(k, scale), m) == Value::Fin(self.score_value(k, c, m)),
    {
        self.lemma_launched();
        self.lemma_kv_row(k);
        self.lemma_products(0, self.q_row(), 1, self.kv_row(k), m);
        let dot = sum_of(self.products(0, self.q_row(), 1, self.kv_row(k)));
        assert(eval(Expr::Arg(scale), m) == Value::Fin(c));
        assert(eval(dot.times(Expr::Arg(scale)), m) == bin_value(
            BinOp::Mul,
            eval(dot, m),
            eval(Expr::Arg(scale), m),
        ));
    }

    /// The state of the recurrence after `k` key rows, for the running maximum `top`.
    pub open spec fn recurrence_holds(self, k: nat, top: real, c: real, m: Model) -> bool {
        &&& eval(self.running_max(k), m) == Value::Fin(top)
        &&& eval(self.running_sum(k), m) == Value::Fin(
            total(self.visible(k), |j: int| (m.exp)(self.score_value(j, c, m) - top)),
        )
        &&& forall|d: int|
            0 <= d < self.head_dim ==> eval(#[trigger] self.running_acc(k, d), m) == Value::Fin(
                self.partial(self.visible(k), d, top, c, m),
            )
    }

    /// Moving the terms of the first `n` key rows from the maximum `top` to `next`.
    proof fn lemma_rescaled(self, n: nat, top: real, next: real, c: real, m: Model)
        requires
            exponential(m),
        ensures
            prod(
                (m.exp)(top - next),
                total(n, |j: int| (m.exp)(self.score_value(j, c, m) - top)),
            ) == total(n, |j: int| (m.exp)(self.score_value(j, c, m) - next)),
            forall|d: int|
                prod(
                    (m.exp)(top - next),
                    #[trigger] self.partial(n, d, top, c, m),
                ) == self.partial(n, d, next, c, m),
    {
        let r = (m.exp)(top - next);
        let f = |j: int| (m.exp)(self.score_value(j, c, m) - top);
        let g = |j: int| (m.exp)(self.score_value(j, c, m) - next);
        assert forall|j: int| 0 <= j < n implies prod(r, f(j)) == #[trigger] g(j) by {
            let s = self.score_value(j, c, m);
            assert((top - next) + (s - top) == s - next);
        }
        lemma_total_scaled(n, r, f, g);
        assert forall|d: int|
            prod(r, #[trigger] self.partial(n, d, top, c, m)) == self.partial(n, d, next, c, m) by {
            let v = |j: int| (m.load)(2, self.kv_row(j) + d);
            let fv = |j: int| prod((m.exp)(self.score_value(j, c, m) - top), v(j));
            let gv = |j: int| prod((m.exp)(self.score_value(j, c, m) - next), v(j));
            assert forall|j: int| 0 <= j < n implies prod(r, fv(j)) == #[trigger] gv(j) by {
                let s = self.score_value(j, c, m);
                assert((top - next) + (s - top) == s - next);
                lemma_prod_assoc(r, (m.exp)(s - top), v(j));
                assert(prod(r, (m.exp)(s - top)) == (m.exp)(s - next));
            }
            lemma_total_scaled(n, r, fv, gv);
            lemma_total_eq(
                n,
                fv,
                |j: int|
                    prod(
                        (m.exp)(self.score_value(j, c, m) - top),
                        (m.load)(2, self.kv_row(j) + d),
                    ),
            );
            lemma_total_eq(
                n,
                gv,
                |j: int|
                    prod(
                        (m.exp)(self.score_value(j, c, m) - next),
                        (m.load)(2, self.kv_row(j) + d),
                    ),
            );
        }
    }

    /// One step of the recurrence, for the values of its parts.
    proof fn lemma_step(self, j: nat, d: int, rescale: real, weight: real, m: Model)
        requires
            self.launched(),
            j < self.n_ctx_k,
            0 <= d < self.head_dim,
            eval(self.rescale(j), m) == Value::Fin(rescale),
            eval(self.weight(j), m) == Value::Fin(weight),
        ensures
            eval(self.running_sum(j), m) is Fin ==> eval(self.running_sum(j + 1), m) == Value::Fin(
                prod(rescale, eval(self.running_sum(j), m)->Fin_0) + weight,
            ),
            eval(self.running_acc(j, d), m) is Fin ==> eval(self.running_acc(j + 1, d), m)
                == Value::Fin(
                prod(rescale, eval(self.running_acc(j, d), m)->Fin_0) + prod(
                    weight,
                    (m.load)(2, self.kv_row(j as int) + d),
                ),
            ),
    {
        self.lemma_kv_row(j as int);
        let v = at(2, self.kv_row(j as int) + d);
        assert(eval(v, m) == Value::Fin((m.load)(2, self.kv_row(j as int) + d)));
        let kept = self.rescale(j).times(self.running_sum(j));
        assert(self.running_sum(j + 1) == kept.plus(self.weight(j)));
        assert(eval(kept, m) == bin_value(
            BinOp::Mul,
            eval(self.rescale(j), m),
            eval(self.running_sum(j), m),
        ));
        assert(eval(kept.plus(self.weight(j)), m) == bin_value(
            BinOp::Add,
            eval(kept, m),
            eval(self.weight(j), m),
        ));
        let kept_acc = self.rescale(j).times(self.running_acc(j, d));
        let new_acc = self.weight(j).times(v);
        assert(self.running_acc(j + 1, d) == kept_acc.plus(new_acc));
        assert(eval(kept_acc, m) == bin_value(
            BinOp::Mul,
            eval(self.rescale(j), m),
            eval(self.running_acc(j, d), m),
        ));
        assert(eval(new_acc, m) == bin_value(BinOp::Mul, eval(self.weight(j), m), eval(v, m)));
        assert(eval(kept_acc.plus(new_acc), m) == bin_value(
            BinOp::Add,
            eval(kept_acc, m),
            eval(new_acc, m),
        ));
    }

    /// The values of the rescaling factor and of the new weight.
    proof fn lemma_factors(self, j: nat, m: Model)
        ensures
            eval(self.running_max(j + 1), m) == bin_value(
                BinOp::Max,
                eval(self.running_max(j), m),
                eval(self.masked_score(j as int), m),
            ),
            eval(self.rescale(j), m) == un_value(
                UnOp::Exp,
                bin_value(
                    BinOp::Sub,
                    eval(self.running_max(j), m),
                    eval(self.running_max(j + 1), m),
                ),
                m,
            ),
            eval(self.weight(j), m) == un_value(
                UnOp::Exp,
                bin_value(
                    BinOp::Sub,
                    eval(self.masked_score(j as int), m),
                    eval(self.running_max(j + 1), m),
                ),
                m,
            ),
    {
        let old_max = self.running_max(j);
        let new_max = self.running_max(j + 1);
        assert(new_max == old_max.maximum(self.masked_score(j as int)));
        assert(eval(old_max.minus(new_max), m) == bin_value(
            BinOp::Sub,
            eval(old_max, m),
            eval(new_max, m),
        ));
        let score = self.masked_score(j as int);
        assert(eval(score.minus(new_max), m) == bin_value(
            BinOp::Sub,
            eval(score, m),
            eval(new_max, m),
        ));
    }

    /// The recurrence holds after every key row.
    proof fn lemma_recurrence(self, k: nat, c: real, m: Model) -> (top: real)
        requires
            self.launched(),
            exponential(m),
            (m.arg)(7) == Value::Fin(c),
            (m.arg)(8) == Value::NegInf,
            1 <= k <= self.n_ctx_k,
        ensures
            self.recurrence_holds(k, top, c, m),
        decreases k,
    {
        let j = (k - 1) as nat;
        let s = self.score_value(j as int, c, m);
        self.lemma_factors(j, m);
        assert(eval(Expr::Arg(8), m) == Value::NegInf);
        if self.is_future(j as int) {
            let top = self.lemma_recurrence(j, c, m);
            assert(self.visible(k) == self.visible(j));
            self.lemma_rescaled(self.visible(j), top, top, c, m);
            assert forall|d: int| 0 <= d < self.head_dim implies eval(
                #[trigger] self.running_acc(k, d),
                m,
            ) == Value::Fin(self.partial(self.visible(k), d, top, c, m)) by {
                self.lemma_step(j, d, (m.exp)(top - top), 0real, m);
                assert(eval(self.running_acc(j, d), m) is Fin);
                lemma_prod_zero((m.load)(2, self.kv_row(j as int) + d));
                assert(prod((m.exp)(top - top), self.partial(self.visible(j), d, top, c, m))
                    == self.partial(self.visible(j), d, top, c, m));
            }
            self.lemma_step(j, 0, (m.exp)(top - top), 0real, m);
            top
        } else if j == 0 {
            self.lemma_score(0, 7, c, m);
            lemma_zero_value(m);
            let f = |i: int| (m.exp)(self.score_value(i, c, m) - s);
            assert(eval(self.running_max(1), m) == Value::Fin(s));
            assert(eval(self.rescale(0), m) == Value::Fin(0real));
            assert(eval(self.weight(0), m) == Value::Fin((m.exp)(s - s)));
            lemma_prod_zero(0real);
            assert(self.running_sum(0) == zero());
            self.lemma_step(0, 0, 0real, (m.exp)(s - s), m);
            assert(total(0, f) == 0real);
            assert(total(1, f) == total(0, f) + f(0));
            assert forall|d: int| 0 <= d < self.head_dim implies eval(
                #[trigger] self.running_acc(k, d),
                m,
            ) == Value::Fin(self.partial(self.visible(k), d, s, c, m)) by {
                assert(self.running_acc(0, d) == zero());
                self.lemma_step(0, d, 0real, (m.exp)(s - s), m);
                let g = |i: int|
                    prod(
                        (m.exp)(self.score_value(i, c, m) - s),
                        (m.load)(2, self.kv_row(i) + d),
                    );
                assert(total(0, g) == 0real);
                assert(total(1, g) == total(0, g) + g(0));
            }
            s
        } else {
            let top = self.lemma_recurrence(j, c, m);
            self.lemma_score(j as int, 7, c, m);
            let next = if top >= s {
                top
            } else {
                s
            };
            assert(eval(self.running_max(k), m) == Value::Fin(next));
            self.lemma_rescaled(j, top, next, c, m);
            let f = |i: int| (m.exp)(self.score_value(i, c, m) - next);
            self.lemma_step(j, 0, (m.exp)(top - next), (m.exp)(s - next), m);
            assert(total(k, f) == total(j, f) + f(j as int));
            assert forall|d: int| 0 <= d < self.head_dim implies eval(
                #[trigger] self.running_acc(k, d),
                m,
            ) == Value::Fin(self.partial(self.visible(k), d, next, c, m)) by {
                self.lemma_step(j, d, (m.exp)(top - next), (m.exp)(s - next), m);
                assert(eval(self.running_acc(j, d), m) is Fin);
                let g = |i: int|
                    prod(
                        (m.exp)(self.score_value(i, c, m) - next),
                        (m.load)(2, self.kv_row(i) + d),
                    );
                assert(total(k, g) == total(j, g) + g(j as int));
                assert(prod((m.exp)(top - next), self.partial(j, d, top, c, m)) == self.partial(
                    j,
                    d,
                    next,
                    c,
                    m,
                ));
            }
            next
        }
    }

    /// `Σ exp(score − top) · v[d]` over the first `n` key rows.
    pub open spec fn partial(self, n: nat, d: int, top: real, c: real, m: Model) -> real {
        total(
            n,
            |j: int|
                prod((m.exp)(self.score_value(j, c, m) - top), (m.load)(2, self.kv_row(j) + d)),
        )
    }
}

/// Causal attention in exact arithmetic is the softmax over the visible key rows:
/// with `s_k = ⟨q, k⟩ · scale` and a mask value of negative infinity, the block of
/// [`crate::kernels::flash_attn2::flash_attn2_causal_fwd`] stores
/// `o[d] = Σ exp(s_k) · v_k[d] / Σ exp(s_k)` over `k <= pos`, and saves
/// `l = ln Σ exp(s_k)`.
pub proof fn causal_forward_is_softmax(blk: AttnBlock, d: int, c: real, m: Model)
    requires
        blk.launched(),
        blk.n_ctx_k >= 1,
        0 <= d < blk.head_dim,
        exponential(m),
        logarithm(m),
        (m.arg)(7) == Value::Fin(c),
        (m.arg)(8) == Value::NegInf,
    ensures
        blk.partition(c, m) > 0real,
        eval(blk.forward_cells()[(3, blk.q_row() + d)], m) == Value::Fin(
            quot(blk.weighted(d, c, m), blk.partition(c, m)),
        ),
        eval(blk.forward_cells()[(4, blk.l_row())], m) == Value::Fin(
            (m.log)(blk.partition(c, m)),
        ),
{
    let n = blk.n_ctx_k as nat;
    let count = blk.visible(n);
    let top = blk.lemma_recurrence(n, c, m);
    let moved = |j: int| (m.exp)(blk.score_value(j, c, m) - top);
    let plain = |j: int| (m.exp)(blk.score_value(j, c, m));
    let sum = total(count, moved);
    let acc = blk.partial(count, d, top, c, m);
    let z = (m.exp)(top);
    lemma_total_positive(count, moved);
    lemma_total_positive(count, plain);
    assert forall|j: int| 0 <= j < count implies prod(z, moved(j)) == #[trigger] plain(j) by {
        let s = blk.score_value(j, c, m);
        assert(top + (s - top) == s);
    }
    lemma_total_scaled(count, z, moved, plain);
    assert(prod(z, sum) == blk.partition(c, m));
    blk.lemma_rescaled(count, top, 0real, c, m);
    assert(top - 0real == top);
    assert(prod(z, acc) == blk.partial(count, d, 0real, c, m));
    lemma_total_eq(
        count,
        |j: int|
            prod((m.exp)(blk.score_value(j, c, m) - 0real), (m.load)(2, blk.kv_row(j) + d)),
        |j: int| prod((m.exp)(blk.score_value(j, c, m)), (m.load)(2, blk.kv_row(j) + d)),
    );
    lemma_quot_cancel(z, acc, sum);
    let (acc_e, sum_e) = (blk.running_acc(n, d), blk.running_sum(n));
    assert(eval(acc_e, m) == Value::Fin(acc));
    assert(eval(acc_e.over(sum_e), m) == Value::Fin(quot(acc, sum)));
    assert(blk.forward_cells()[(3, blk.q_row() + d)] == blk.attended(d));

    // The saved value: the mean over equal lanes.
    let max_e = blk.running_max(n);
    let lane = max_e.plus(sum_e.apply(UnOp::Log));
    let l = top + (m.log)(sum);
    assert(eval(sum_e.apply(UnOp::Log), m) == Value::Fin((m.log)(sum)));
    assert(eval(lane, m) == Value::Fin(l));
    let lanes = filled(blk.head_dim as nat, lane);
    lemma_sum_value(lanes, m, |i: int| l);
    lemma_total_constant(blk.head_dim as nat, l);
    let width = blk.head_dim as real;
    lemma_prod_comm(width, l);
    lemma_quot_unique(l, prod(width, l), width);
    assert(eval(Expr::Int(blk.head_dim), m) == Value::Fin(width));
    assert(eval(sum_of(lanes).over(Expr::Int(blk.head_dim)), m) == Value::Fin(l));
    assert(blk.forward_cells()[(4, blk.l_row())] == blk.log_sum_exp());
    assert((m.exp)((m.log)(sum)) == sum);
    assert(prod(z, (m.exp)((m.log)(sum))) == (m.exp)(top + (m.log)(sum)));
    assert((m.log)((m.exp)(l)) == l);
}

/// A query does not see the future: its causal output is the same for any contents of
/// the key and value rows after its position.
pub proof fn future_rows_do_not_matter(blk: AttnBlock, d: int, c: real, a: Model, b: Model)
    requires
        blk.launched(),
        blk.n_ctx_k >= 1,
        0 <= d < blk.head_dim,
        exponential(a),
        logarithm(a),
        (a.arg)(7) == Value::Fin(c),
        (a.arg)(8) == Value::NegInf,
        b.arg == a.arg,
        b.exp == a.exp,
        b.log == a.log,
        forall|i: int|
            #![trigger (b.load)(0, i)]
            (b.load)(0, i) == (a.load)(0, i),
        forall|k: int, i: int|
            #![trigger (b.load)(1, blk.kv_row(k) + i)]
            #![trigger (b.load)(2, blk.kv_row(k) + i)]
            0 <= k <= blk.pos && 0 <= i < blk.head_dim ==> (b.load)(1, blk.kv_row(k) + i)
                == (a.load)(1, blk.kv_row(k) + i) && (b.load)(2, blk.kv_row(k) + i) == (a.load)(
                2,
                blk.kv_row(k) + i,
            ),
    ensures
        eval(blk.forward_cells()[(3, blk.q_row() + d)], b) == eval(
            blk.forward_cells()[(3, blk.q_row() + d)],
            a,
        ),
        eval(blk.forward_cells()[(4, blk.l_row())], b) == eval(
            blk.forward_cells()[(4, blk.l_row())],
            a,
        ),
{
    causal_forward_is_softmax(blk, d, c, a);
    assert(exponential(b)) by {
        assert forall|x: real, y: real|
            #![trigger prod((b.exp)(x), (b.exp)(y))]
            prod((b.exp)(x), (b.exp)(y)) == (b.exp)(x + y) by {
            assert(prod((a.exp)(x), (a.exp)(y)) == (a.exp)(x + y));
        }
    }
    assert(logarithm(b)) by {
        assert forall|x: real| x > 0real implies (b.exp)(#[trigger] (b.log)(x)) == x by {
            assert((a.exp)((a.log)(x)) == x);
        }
    }
    causal_forward_is_softmax(blk, d, c, b);
    let count = blk.visible(blk.n_ctx_k as nat);
    assert forall|j: int| 0 <= j < count implies #[trigger] blk.score_value(j, c, a)
        == blk.score_value(j, c, b) by {
        lemma_total_eq(
            blk.head_dim as nat,
            |i: int| prod((a.load)(0, blk.q_row() + i), (a.load)(1, blk.kv_row(j) + i)),
            |i: int| prod((b.load)(0, blk.q_row() + i), (b.load)(1, blk.kv_row(j) + i)),
        );
    }
    lemma_total_eq(
        count,
        |j: int| (a.exp)(blk.score_value(j, c, a)),
        |j: int| (b.exp)(blk.score_value(j, c, b)),
    );
    lemma_total_eq(
        count,
        |j: int| prod((a.exp)(blk.score_value(j, c, a)), (a.load)(2, blk.kv_row(j) + d)),
        |j: int| prod((b.exp)(blk.score_value(j, c, b)), (b.load)(2, blk.kv_row(j) + d)),
    );
}

/// The backward pass recomputes the softmax weights: where the saved value is
/// `ln Z`, the weight of key row `k` is `exp(s_k) / Z`, and zero for a future row of a
/// causal pass.
pub proof fn backward_recomputes_weights(
    blk: AttnBlock,
    causal: bool,
    k: int,
    c: real,
    z: real,
    m: Model,
)
    requires
        blk.launched(),
        0 <= k < blk.n_ctx_k,
        exponential(m),
        logarithm(m),
        (m.arg)(11) == Value::Fin(c),
        z > 0real,
        (m.load)(5, blk.l_row()) == (m.log)(z),
    ensures
        eval(blk.probability(causal, k), m) == Value::Fin(
            if causal && blk.is_future(k) {
                0real
            } else {
                quot((m.exp)(blk.score_value(k, c, m)), z)
            },
        ),
{
    if causal && blk.is_future(k) {
        lemma_zero_value(m);
    } else {
        blk.lemma_launched();
        blk.lemma_score(k, 11, c, m);
        let s = blk.score_value(k, c, m);
        let lse = (m.log)(z);
        let cell = at(5, blk.l_row());
        assert(eval(cell, m) == Value::Fin(lse));
        let f = |i: int| lse;
        lemma_sum_value(seq![cell], m, f);
        assert(total(0, f) == 0real);
        assert(total(1, f) == total(0, f) + f(0));
        let arg = blk.score(k, 11).minus(blk.saved_lse());
        assert(eval(arg, m) == Value::Fin(s - lse));
        let w = (m.exp)(s - lse);
        assert(prod(w, (m.exp)(lse)) == (m.exp)((s - lse) + lse));
        assert((s - lse) + lse == s);
        lemma_quot_unique(w, (m.exp)(s), z);
    }
}

impl AttnBlock {
    /// `⟨dO_q, v_k⟩ − ⟨O_q, dO_q⟩`.
    pub open spec fn residual_value(self, k: int, m: Model) -> real {
        total(
            self.head_dim as nat,
            |d: int| prod((m.load)(4, self.q_row() + d), (m.load)(2, self.kv_row(k) + d)),
        ) - total(
            self.head_dim as nat,
            |d: int| prod((m.load)(3, self.q_row() + d), (m.load)(4, self.q_row() + d)),
        )
    }

    /// A score gradient has the value that it says.
    proof fn lemma_score_gradient(self, causal: bool, k: int, p: real, m: Model)
        requires
            self.launched(),
            0 <= k < self.n_ctx_k,
            eval(self.probability(causal, k), m) == Value::Fin(p),
        ensures
            eval(self.score_gradient(causal, k), m) == Value::Fin(
                prod(p, self.residual_value(k, m)),
            ),
    {
        self.lemma_launched();
        self.lemma_kv_row(k);
        self.lemma_products(4, self.q_row(), 2, self.kv_row(k), m);
        self.lemma_products(3, self.q_row(), 4, self.q_row(), m);
        let dov = sum_of(self.products(4, self.q_row(), 2, self.kv_row(k)));
        let diff = dov.minus(self.output_dot());
        assert(eval(diff, m) == Value::Fin(self.residual_value(k, m)));
        assert(eval(self.probability(causal, k).times(diff), m) == bin_value(
            BinOp::Mul,
            eval(self.probability(causal, k), m),
            eval(diff, m),
        ));
    }

    /// The query gradient after the first `k` key rows.
    proof fn lemma_query_gradient(
        self,
        causal: bool,
        k: nat,
        d: int,
        c: real,
        p: spec_fn(int) -> real,
        m: Model,
    )
        requires
            self.launched(),
            k <= self.n_ctx_k,
            0 <= d < self.head_dim,
            (m.arg)(11) == Value::Fin(c),
            forall|j: int|
                0 <= j < k ==> eval(#[trigger] self.probability(causal, j), m) == Value::Fin(p(j)),
        ensures
            eval(self.query_gradient(causal, k, d), m) == Value::Fin(
                total(
                    k,
                    |j: int|
                        prod(
                            prod(
                                prod(p(j), self.residual_value(j, m)),
                                (m.load)(1, self.kv_row(j) + d),
                            ),
                            c,
                        ),
                ),
            ),
        decreases k,
    {
        if k == 0 {
            lemma_zero_value(m);
        } else {
            let j = (k - 1) as nat;
            self.lemma_query_gradient(causal, j, d, c, p, m);
            self.lemma_kv_row(j as int);
            assert(eval(self.probability(causal, j as int), m) == Value::Fin(p(j as int)));
            self.lemma_score_gradient(causal, j as int, p(j as int), m);
            let ds = self.score_gradient(causal, j as int);
            let key = at(1, self.kv_row(j as int) + d);
            assert(eval(key, m) == Value::Fin((m.load)(1, self.kv_row(j as int) + d)));
            assert(eval(Expr::Arg(11), m) == Value::Fin(c));
            assert(eval(ds.times(key), m) is Fin);
            assert(eval(ds.times(key).times(Expr::Arg(11)), m) is Fin);
            let below = self.query_gradient(causal, j, d);
            assert(self.query_gradient(causal, k, d) == below.plus(
                ds.times(key).times(Expr::Arg(11)),
            ));
        }
    }
}

/// The backward pass in exact arithmetic, for attention weights `p`: with
/// `dS_k = p_k · (⟨dO_q, v_k⟩ − ⟨O_q, dO_q⟩)`, the block stores
/// `dQ[d] = Σ_k dS_k · k_k[d] · scale` and adds `p_k · dO_q[d]` to `dV[k]` and
/// `dS_k · q[d] · scale` to `dK[k]`.
pub proof fn backward_gradients(
    blk: AttnBlock,
    causal: bool,
    k: int,
    d: int,
    c: real,
    p: spec_fn(int) -> real,
    m: Model,
)
    requires
        blk.launched(),
        0 <= k < blk.n_ctx_k,
        0 <= d < blk.head_dim,
        (m.arg)(11) == Value::Fin(c),
        forall|j: int|
            0 <= j < blk.n_ctx_k ==> eval(#[trigger] blk.probability(causal, j), m) == Value::Fin(
                p(j),
            ),
    ensures
        eval(blk.backward_stores(causal)[(6, blk.q_row() + d)], m) == Value::Fin(
            total(
                blk.n_ctx_k as nat,
                |j: int|
                    prod(
                        prod(
                            prod(p(j), blk.residual_value(j, m)),
                            (m.load)(1, blk.kv_row(j) + d),
                        ),
                        c,
                    ),
            ),
        ),
        eval(
            blk.backward_adds(causal, blk.n_ctx_k as nat)[(8, blk.kv_row(k) + d)],
            m,
        ) == Value::Fin(prod(p(k), (m.load)(4, blk.q_row() + d))),
        eval(
            blk.backward_adds(causal, blk.n_ctx_k as nat)[(7, blk.kv_row(k) + d)],
            m,
        ) == Value::Fin(
            prod(
                prod(prod(p(k), blk.residual_value(k, m)), (m.load)(0, blk.q_row() + d)),
                c,
            ),
        ),
{
    let n = blk.n_ctx_k as nat;
    blk.lemma_launched();
    blk.lemma_kv_row(k);
    blk.lemma_query_gradient(causal, n, d, c, p, m);
    assert(blk.backward_stores(causal)[(6, blk.q_row() + d)] == blk.query_gradient(causal, n, d));
    let head_dim = blk.head_dim as int;
    vstd::arithmetic::div_mod::lemma_fundamental_div_mod_converse(
        blk.kv_row(k) + d - blk.kv_base(),
        head_dim,
        k,
        d,
    );
    let adds = blk.backward_adds(causal, n);
    assert(adds.dom().contains((8, blk.kv_row(k) + d)));
    assert(adds.dom().contains((7, blk.kv_row(k) + d)));
    assert(eval(blk.probability(causal, k), m) == Value::Fin(p(k)));
    let grad = at(4, blk.q_row() + d);
    assert(eval(grad, m) == Value::Fin((m.load)(4, blk.q_row() + d)));
    assert(adds[(8, blk.kv_row(k) + d)] == blk.probability(causal, k).times(grad));
    blk.lemma_score_gradient(causal, k, p(k), m);
    let query = at(0, blk.q_row() + d);
    assert(eval(query, m) == Value::Fin((m.load)(0, blk.q_row() + d)));
    assert(eval(Expr::Arg(11), m) == Value::Fin(c));
    let ds = blk.score_gradient(causal, k);
    assert(eval(ds.times(query), m) is Fin);
    assert(adds[(7, blk.kv_row(k) + d)] == ds.times(query).times(Expr::Arg(11)));
}

/// A launch sets every cell of its outputs once: cell `[b, p, d]` of the attention
/// output and of the query gradient, and cell `[b, p]` of the log-sum-exp, are set by
/// the block of query row `p` of batch-head `b` and by no other.
pub proof fn attention_sets_every_cell(blk: AttnBlock, causal: bool, b: int, p: int, d: int)
    requires
        blk.launched(),
        0 <= b,
        0 <= p < blk.n_ctx_q,
        0 <= d < blk.head_dim,
    ensures
        ({
            let o = offset3(b, p, d, blk.n_ctx_q as int, blk.head_dim as int);
            let mine = blk.pos == p && blk.bh == b;
            &&& blk.forward_cells().dom().contains((3, o)) <==> mine
            &&& blk.backward_stores(causal).dom().contains((6, o)) <==> mine
            &&& blk.forward_cells().dom().contains((4, b * blk.n_ctx_q + p)) <==> mine
        }),
{
    let (nq, c) = (blk.n_ctx_q as int, blk.head_dim as int);
    let o = offset3(b, p, d, nq, c);
    lemma_offset3_decodes(b, p, d, nq, c);
    if blk.q_row() <= o < blk.q_row() + c {
        lemma_offset3_decodes(blk.bh as int, blk.pos as int, o - blk.q_row(), nq, c);
    }
    vstd::arithmetic::div_mod::lemma_fundamental_div_mod_converse(b * nq + p, nq, b, p);
    vstd::arithmetic::div_mod::lemma_fundamental_div_mod_converse(
        blk.l_row(),
        nq,
        blk.bh as int,
        blk.pos as int,
    );
}

/// The block of query row `g % n_ctx_q` of batch-head `g / n_ctx_q`: block `g` of a
/// launch over the grid `(n_ctx_q, BH, 1)`, counted row by row.
pub open spec fn grid_block(g: int, head_dim: i32, n_ctx_q: i32, n_ctx_k: i32) -> AttnBlock {
    AttnBlock {
        pos: (g % n_ctx_q as int) as i32,
        bh: (g / n_ctx_q as int) as i32,
        head_dim,
        n_ctx_q,
        n_ctx_k,
    }
}

impl AttnBlock {
    /// The attention weight of key row `k` where the forward pass saved `ln z`:
    /// `exp(s_k) / z`, and zero for a future row of a causal pass.
    pub open spec fn weight_value(self, causal: bool, k: int, c: real, z: real, m: Model) -> real {
        if causal && self.is_future(k) {
            0real
        } else {
            quot((m.exp)(self.score_value(k, c, m)), z)
        }
    }

    /// The term of this query row in column `d` of value gradient row `k`: `p · dO[d]`.
    pub open spec fn value_term(
        self,
        causal: bool,
        k: int,
        d: int,
        c: real,
        z: real,
        m: Model,
    ) -> real {
        prod(self.weight_value(causal, k, c, z, m), (m.load)(4, self.q_row() + d))
    }

    /// The term of this query row in column `d` of key gradient row `k`:
    /// `p · (⟨dO, v⟩ − ⟨O, dO⟩) · q[d] · scale`.
    pub open spec fn key_term(
        self,
        causal: bool,
        k: int,
        d: int,
        c: real,
        z: real,
        m: Model,
    ) -> real {
        let ds = prod(self.weight_value(causal, k, c, z, m), self.residual_value(k, m));
        prod(prod(ds, (m.load)(0, self.q_row() + d)), c)
    }

    /// What a block of the same batch-head adds, from whatever memory it sees.
    proof fn lemma_terms(
        self,
        causal: bool,
        k: int,
        d: int,
        c: real,
        z: real,
        seen: Model,
        m: Model,
    )
        requires
            self.launched(),
            0 <= k < self.n_ctx_k,
            0 <= d < self.head_dim,
            exponential(m),
            logarithm(m),
            (m.arg)(11) == Value::Fin(c),
            z > 0real,
            (m.load)(5, self.l_row()) == (m.log)(z),
            same_inputs(seen, m, set![0int, 1, 2, 3, 4, 5]),
        ensures
            ({
                let adds = self.backward_adds(causal, self.n_ctx_k as nat);
                let o = self.kv_row(k) + d;
                &&& added(adds, (8, o), seen) == self.value_term(causal, k, d, c, z, m)
                &&& added(adds, (7, o), seen) == self.key_term(causal, k, d, c, z, m)
            }),
    {
        assert(exponential(seen)) by {
            assert forall|x: real, y: real|
                #![trigger prod((seen.exp)(x), (seen.exp)(y))]
                prod((seen.exp)(x), (seen.exp)(y)) == (seen.exp)(x + y) by {
                assert(prod((m.exp)(x), (m.exp)(y)) == (m.exp)(x + y));
            }
        }
        assert(logarithm(seen)) by {
            assert forall|x: real| x > 0real implies (seen.exp)(#[trigger] (seen.log)(x)) == x by {
                assert((m.exp)((m.log)(x)) == x);
            }
        }
        let p = |j: int| self.weight_value(causal, j, c, z, seen);
        assert forall|j: int| 0 <= j < self.n_ctx_k implies eval(
            #[trigger] self.probability(causal, j),
            seen,
        ) == Value::Fin(p(j)) by {
            backward_recomputes_weights(self, causal, j, c, z, seen);
        }
        backward_gradients(self, causal, k, d, c, p, seen);
        self.lemma_launched();
        self.lemma_kv_row(k);
        let adds = self.backward_adds(causal, self.n_ctx_k as nat);
        assert(adds.dom().contains((8, self.kv_row(k) + d)));
        assert(adds.dom().contains((7, self.kv_row(k) + d)));
        let h = self.head_dim as nat;
        lemma_total_eq(
            h,
            |i: int| prod((seen.load)(0, self.q_row() + i), (seen.load)(1, self.kv_row(k) + i)),
            |i: int| prod((m.load)(0, self.q_row() + i), (m.load)(1, self.kv_row(k) + i)),
        );
        assert(self.score_value(k, c, seen) == self.score_value(k, c, m));
        lemma_total_eq(
            h,
            |i: int| prod((seen.load)(4, self.q_row() + i), (seen.load)(2, self.kv_row(k) + i)),
            |i: int| prod((m.load)(4, self.q_row() + i), (m.load)(2, self.kv_row(k) + i)),
        );
        lemma_total_eq(
            h,
            |i: int| prod((seen.load)(3, self.q_row() + i), (seen.load)(4, self.q_row() + i)),
            |i: int| prod((m.load)(3, self.q_row() + i), (m.load)(4, self.q_row() + i)),
        );
        assert(self.residual_value(k, seen) == self.residual_value(k, m));
    }

    /// A block adds nothing to the gradients of another batch-head.
    proof fn lemma_other_batch_head(self, causal: bool, b: int, buf: int, k: int, d: int)
        requires
            self.launched(),
            b != self.bh,
            0 <= b,
            0 <= k < self.n_ctx_k,
            0 <= d < self.head_dim,
        ensures
            !self.backward_adds(causal, self.n_ctx_k as nat).dom().contains(
                (buf, offset3(b, k, d, self.n_ctx_k as int, self.head_dim as int)),
            ),
    {
        let (nk, h) = (self.n_ctx_k as int, self.head_dim as int);
        let o = offset3(b, k, d, nk, h);
        lemma_row_offset(b, k, nk, h);
        assert(0 <= k * h && (k + 1) * h <= nk * h && (k + 1) * h == k * h + h)
            by (nonlinear_arith)
            requires
                0 <= k < nk,
                0 < h,
        ;
        let x = self.bh as int;
        if x < b {
            assert((x + 1) * nk * h <= b * nk * h && (x + 1) * nk * h == x * nk * h + nk * h)
                by (nonlinear_arith)
                requires
                    x + 1 <= b,
                    0 <= nk,
                    0 < h,
            ;
        } else {
            assert((b + 1) * nk * h <= x * nk * h && (b + 1) * nk * h == b * nk * h + nk * h)
                by (nonlinear_arith)
                requires
                    b + 1 <= x,
                    0 <= nk,
                    0 < h,
            ;
        }
    }
}

/// Key and value gradients are totals over the query rows of their batch-head: after
/// a launch of `bhs` batch-heads, cell `[b, k, d]` of `dV` has grown by
/// `Σ_q p_qk · dO_q[d]` and that of `dK` by `Σ_q dS_qk · q[d] · scale`, each query row
/// counted once. The blocks may run in any order and overlap: `order` is the order in
/// which their terms reach the cell, and `seen(g)` the memory that block `g` reads.
/// The forward pass saved `ln z(q)` for query row `q` of the batch-head.
pub proof fn gradient_totals(
    causal: bool,
    bhs: i32,
    head_dim: i32,
    n_ctx_q: i32,
    n_ctx_k: i32,
    b: int,
    k: int,
    d: int,
    c: real,
    z: spec_fn(int) -> real,
    before: real,
    order: Seq<int>,
    seen: spec_fn(int) -> Model,
    m: Model,
)
    requires
        0 < head_dim,
        0 < n_ctx_q,
        bhs * n_ctx_q * head_dim <= i32::MAX,
        bhs * n_ctx_k * head_dim <= i32::MAX,
        0 <= b < bhs,
        0 <= k < n_ctx_k,
        0 <= d < head_dim,
        exponential(m),
        logarithm(m),
        (m.arg)(11) == Value::Fin(c),
        forall|q: int|
            #![trigger z(q)]
            0 <= q < n_ctx_q ==> z(q) > 0real && (m.load)(5, b * n_ctx_q + q) == (m.log)(z(q)),
        each_once(order, (bhs * n_ctx_q) as nat),
        forall|g: int|
            0 <= g < bhs * n_ctx_q ==> same_inputs(
                #[trigger] seen(g),
                m,
                set![0int, 1, 2, 3, 4, 5],
            ),
    ensures
        ({
            let blk = |g: int| grid_block(g, head_dim, n_ctx_q, n_ctx_k);
            let o = offset3(b, k, d, n_ctx_k as int, head_dim as int);
            let first = b * n_ctx_q;
            &&& accumulated(
                before,
                order,
                |g: int| added(blk(g).backward_adds(causal, n_ctx_k as nat), (8, o), seen(g)),
            ) == before + total(
                n_ctx_q as nat,
                |q: int| blk(first + q).value_term(causal, k, d, c, z(q), m),
            )
            &&& accumulated(
                before,
                order,
                |g: int| added(blk(g).backward_adds(causal, n_ctx_k as nat), (7, o), seen(g)),
            ) == before + total(
                n_ctx_q as nat,
                |q: int| blk(first + q).key_term(causal, k, d, c, z(q), m),
            )
        }),
{
    let blk = |g: int| grid_block(g, head_dim, n_ctx_q, n_ctx_k);
    let (nq, nk, h) = (n_ctx_q as int, n_ctx_k as int, head_dim as int);
    let o = offset3(b, k, d, nk, h);
    let first = b * n_ctx_q;
    let all = (bhs * n_ctx_q) as nat;
    let dv = |g: int| added(blk(g).backward_adds(causal, n_ctx_k as nat), (8, o), seen(g));
    let dk = |g: int| added(blk(g).backward_adds(causal, n_ctx_k as nat), (7, o), seen(g));
    let dv_row = |q: int| blk(first + q).value_term(causal, k, d, c, z(q), m);
    let dk_row = |q: int| blk(first + q).key_term(causal, k, d, c, z(q), m);
    assert(0 <= first && first + nq <= all) by (nonlinear_arith)
        requires
            first == b * nq,
            all == bhs * nq,
            0 <= b < bhs,
            0 < nq,
    ;
    assert forall|g: int| 0 <= g < all implies (#[trigger] blk(g)).launched() && blk(g).pos == g
        % nq && blk(g).bh == g / nq by {
        lemma_grid_block(g, bhs, head_dim, n_ctx_q, n_ctx_k);
    }
    assert forall|g: int| 0 <= g < all && !(first <= g < first + nq) implies #[trigger] dv(g)
        == 0real && dk(g) == 0real by {
        assert(blk(g).launched());
        assert(g / nq != b) by {
            vstd::arithmetic::div_mod::lemma_fundamental_div_mod(g, nq);
            assert(nq * b == b * nq) by (nonlinear_arith);
        }
        blk(g).lemma_other_batch_head(causal, b, 8, k, d);
        blk(g).lemma_other_batch_head(causal, b, 7, k, d);
    }
    assert forall|q: int| 0 <= q < nq implies #[trigger] dv(first + q) == dv_row(q) && dk(
        first + q,
    ) == dk_row(q) by {
        let x = blk(first + q);
        assert(x.launched());
        vstd::arithmetic::div_mod::lemma_fundamental_div_mod_converse(first + q, nq, b, q);
        assert(x.bh == b && x.pos == q);
        assert(x.kv_row(k) + d == o) by {
            lemma_row_offset(b, k, nk, h);
        }
        assert(z(q) > 0real);
        x.lemma_terms(causal, k, d, c, z(q), seen(first + q), m);
    }
    lemma_accumulated(before, order, all, dv);
    lemma_accumulated(before, order, all, dk);
    assert forall|g: int| 0 <= g < all && !(first <= g < first + nq) implies #[trigger] dk(g)
        == 0real by {
        assert(dv(g) == 0real);
    }
    lemma_total_window(first as nat, nq as nat, all, dv);
    lemma_total_window(first as nat, nq as nat, all, dk);
    assert forall|q: int| 0 <= q < nq implies dk(first + q) == #[trigger] dk_row(q) && dv(
        first + q,
    ) == dv_row(q) by {
        assert(dv(first + q) == dv_row(q));
    }
    lemma_total_eq(nq as nat, |q: int| dv(first + q), dv_row);
    lemma_total_eq(nq as nat, |q: int| dk(first + q), dk_row);
}

/// The blocks of a grid are launched.
proof fn lemma_grid_block(g: int, bhs: i32, head_dim: i32, n_ctx_q: i32, n_ctx_k: i32)
    requires
        0 < head_dim,
        0 < n_ctx_q,
        0 <= n_ctx_k,
        bhs * n_ctx_q * head_dim <= i32::MAX,
        bhs * n_ctx_k * head_dim <= i32::MAX,
        0 <= g < bhs * n_ctx_q,
    ensures
        ({
            let blk = grid_block(g, head_dim, n_ctx_q, n_ctx_k);
            &&& blk.launched()
            &&& blk.pos == g % n_ctx_q as int
            &&& blk.bh == g / n_ctx_q as int
        }),
{
    let (nq, nk, h, n) = (n_ctx_q as int, n_ctx_k as int, head_dim as int, bhs as int);
    let b = g / nq;
    vstd::arithmetic::div_mod::lemma_fundamental_div_mod(g, nq);
    assert(0 <= b < n) by (nonlinear_arith)
        requires
            g == nq * b + g % nq,
            0 <= g % nq < nq,
            0 <= g < n * nq,
            0 < nq,
    ;
    assert((b + 1) * nq * h <= n * nq * h && (b + 1) * nk * h <= n * nk * h) by (nonlinear_arith)
        requires
            0 <= b < n,
            0 < nq,
            0 <= nk,
            0 < h,
    ;
}

} // verus!
