//! Kernel expressions in exact arithmetic: real numbers with a negative infinity.
//!
//! Rounding is left out. What is shown of a kernel here is what its formulas
//! compute, for any contents of memory.

use vstd::arithmetic::power2::{lemma_pow2_adds, lemma_pow2_pos, pow2};
use vstd::prelude::*;

use crate::ieee::{
    exponent_f32, magnitude_f32, sign_f32, F32Bits, F32_MINUS_TWO, F32_NEG_INFINITY, F32_ONE,
};
use crate::kernels::reals::{
    lemma_prod_add, lemma_prod_comm, lemma_prod_succ, lemma_prod_zero, lemma_quot_self,
    lemma_quot_unique, lemma_quot_zero, prod, products_and_quotients, quot,
};
use crate::kernels::tile::{lanes_of, sum_of, tiled_sum, zero, BinOp, Expr, Lanes, UnOp};

verus! {

/// The value of an expression.
pub enum Value {
    NegInf,
    Fin(real),
    /// Positive infinity, or no number.
    Undef,
}

/// What expressions are evaluated against: the contents of memory, the
/// floating-point kernel arguments, and the elementary functions.
pub struct Model {
    pub load: spec_fn(int, int) -> real,
    pub arg: spec_fn(int) -> Value,
    pub exp: spec_fn(real) -> real,
    pub log: spec_fn(real) -> real,
    pub sin: spec_fn(real) -> real,
    pub cos: spec_fn(real) -> real,
    pub sigmoid: spec_fn(real) -> real,
    pub rsqrt: spec_fn(real) -> real,
}

/// The value of a single-precision constant.
pub open spec fn const_value(bits: F32Bits) -> Value {
    if bits == F32_NEG_INFINITY {
        Value::NegInf
    } else if exponent_f32(bits) < 0xFF {
        let size = quot(magnitude_f32(bits) as real, pow2(149) as real);
        Value::Fin(
            if sign_f32(bits) == 0 {
                size
            } else {
                -size
            },
        )
    } else {
        Value::Undef
    }
}

/// `a op b`.
pub open spec fn bin_value(op: BinOp, a: Value, b: Value) -> Value {
    match (a, b) {
        (Value::Fin(x), Value::Fin(y)) => match op {
            BinOp::Add => Value::Fin(x + y),
            BinOp::Sub => Value::Fin(x - y),
            BinOp::Mul => Value::Fin(prod(x, y)),
            BinOp::Div => if y == 0real {
                Value::Undef
            } else {
                Value::Fin(quot(x, y))
            },
            BinOp::Max => Value::Fin(
                if x >= y {
                    x
                } else {
                    y
                },
            ),
        },
        (Value::NegInf, Value::Fin(y)) => match op {
            BinOp::Add => Value::NegInf,
            BinOp::Sub => Value::NegInf,
            BinOp::Max => Value::Fin(y),
            _ => Value::Undef,
        },
        (Value::Fin(x), Value::NegInf) => match op {
            BinOp::Add => Value::NegInf,
            BinOp::Max => Value::Fin(x),
            _ => Value::Undef,
        },
        (Value::NegInf, Value::NegInf) => match op {
            BinOp::Add => Value::NegInf,
            BinOp::Max => Value::NegInf,
            _ => Value::Undef,
        },
        _ => Value::Undef,
    }
}

/// `op(a)`.
pub open spec fn un_value(op: UnOp, a: Value, m: Model) -> Value {
    match a {
        Value::Fin(x) => match op {
            UnOp::Neg => Value::Fin(-x),
            UnOp::Exp => Value::Fin((m.exp)(x)),
            UnOp::Log => if x > 0real {
                Value::Fin((m.log)(x))
            } else if x == 0real {
                Value::NegInf
            } else {
                Value::Undef
            },
            UnOp::Sin => Value::Fin((m.sin)(x)),
            UnOp::Cos => Value::Fin((m.cos)(x)),
            UnOp::Sigmoid => Value::Fin((m.sigmoid)(x)),
            UnOp::Rsqrt => if x > 0real {
                Value::Fin((m.rsqrt)(x))
            } else {
                Value::Undef
            },
            UnOp::Cast => Value::Fin(x),
        },
        Value::NegInf => match op {
            UnOp::Exp => Value::Fin(0real),
            UnOp::Sigmoid => Value::Fin(0real),
            UnOp::Cast => Value::NegInf,
            _ => Value::Undef,
        },
        Value::Undef => Value::Undef,
    }
}

/// The value of `e`.
pub open spec fn eval(e: Expr, m: Model) -> Value
    decreases e,
{
    match e {
        Expr::Load { buf, off } => Value::Fin((m.load)(buf as int, off as int)),
        Expr::Const(bits) => const_value(bits),
        Expr::Arg(i) => (m.arg)(i as int),
        Expr::Int(n) => Value::Fin(n as real),
        Expr::Un(op, a) => un_value(op, eval(*a, m), m),
        Expr::Bin(op, a, b) => bin_value(op, eval(*a, m), eval(*b, m)),
        Expr::Sum(lanes) => eval_lanes(*lanes, m),
    }
}

/// The sum of the values of `lanes`.
pub open spec fn eval_lanes(lanes: Lanes, m: Model) -> Value
    decreases lanes,
{
    match lanes {
        Lanes::Nil => Value::Fin(0real),
        Lanes::Cons(head, tail) => bin_value(BinOp::Add, eval(*head, m), eval_lanes(*tail, m)),
    }
}

/// `f(0) + f(1) + ... + f(n - 1)`.
pub open spec fn total(n: nat, f: spec_fn(int) -> real) -> real
    decreases n,
{
    if n == 0 {
        0real
    } else {
        total((n - 1) as nat, f) + f(n - 1)
    }
}

/// Every lane of `tile` has the finite value that `f` says.
pub open spec fn tile_values(tile: Seq<Expr>, m: Model, f: spec_fn(int) -> real) -> bool {
    forall|i: int| 0 <= i < tile.len() ==> eval(#[trigger] tile[i], m) == Value::Fin(f(i))
}

/// The first summand can be split off.
proof fn lemma_total_first(n: nat, f: spec_fn(int) -> real)
    requires
        n > 0,
    ensures
        total(n, f) == f(0) + total((n - 1) as nat, |i: int| f(i + 1)),
    decreases n,
{
    let g = |i: int| f(i + 1);
    if n > 1 {
        lemma_total_first((n - 1) as nat, f);
        assert(total((n - 1) as nat, g) == total((n - 2) as nat, g) + g(n - 2));
    } else {
        assert(total(0, f) == 0real && total(0, g) == 0real);
    }
}

/// Totals of equal summands are equal.
pub proof fn lemma_total_eq(n: nat, f: spec_fn(int) -> real, g: spec_fn(int) -> real)
    requires
        forall|i: int| 0 <= i < n ==> f(i) == #[trigger] g(i),
    ensures
        total(n, f) == total(n, g),
    decreases n,
{
    if n > 0 {
        lemma_total_eq((n - 1) as nat, f, g);
        assert(f(n - 1) == g(n - 1));
    }
}

/// A sum over lanes is the total of their values.
pub proof fn lemma_sum_value(tile: Seq<Expr>, m: Model, f: spec_fn(int) -> real)
    requires
        tile_values(tile, m, f),
    ensures
        eval(sum_of(tile), m) == Value::Fin(total(tile.len(), f)),
    decreases tile.len(),
{
    if tile.len() > 0 {
        let rest = tile.drop_first();
        let g = |i: int| f(i + 1);
        assert forall|i: int| 0 <= i < rest.len() implies eval(#[trigger] rest[i], m)
            == Value::Fin(g(i)) by {
            assert(rest[i] == tile[i + 1]);
        }
        lemma_sum_value(rest, m, g);
        lemma_total_first(tile.len(), f);
        assert(eval(tile[0], m) == Value::Fin(f(0)));
        assert(eval(sum_of(rest), m) == eval_lanes(lanes_of(rest), m));
        assert(eval(sum_of(tile), m) == eval_lanes(lanes_of(tile), m));
    }
}

/// The constant zero has the value zero.
pub proof fn lemma_zero_value(m: Model)
    ensures
        eval(zero(), m) == Value::Fin(0real),
{
    lemma_pow2_pos(149);
    lemma_quot_zero(pow2(149) as real);
}

/// The constant one has the value one.
pub proof fn lemma_one_value(m: Model)
    ensures
        eval(Expr::Const(F32_ONE), m) == Value::Fin(1real),
{
    lemma_pow2_pos(149);
    lemma_pow2_adds(23, 126);
    assert(pow2(23) == 0x80_0000) by {
        vstd::arithmetic::power2::lemma2_to64();
    }
    lemma_quot_self(pow2(149) as real);
}

/// The constant minus two has the value minus two.
pub proof fn lemma_minus_two_value(m: Model)
    ensures
        eval(Expr::Const(F32_MINUS_TWO), m) == Value::Fin(-2real),
{
    let unit = pow2(149) as real;
    lemma_pow2_pos(149);
    lemma_pow2_adds(23, 127);
    lemma_pow2_adds(1, 149);
    assert(pow2(1) == 2 && pow2(23) == 0x80_0000) by {
        vstd::arithmetic::power2::lemma2_to64();
    }
    assert(pow2(150) as real == unit + unit);
    lemma_prod_zero(unit);
    lemma_prod_succ(0real, unit);
    lemma_prod_succ(1real, unit);
    lemma_quot_unique(2real, unit + unit, unit);
}

/// A total can be split.
pub proof fn lemma_total_split(a: nat, b: nat, f: spec_fn(int) -> real)
    ensures
        total(a + b, f) == total(a, f) + total(b, |i: int| f(a + i)),
    decreases b,
{
    let g = |i: int| f(a + i);
    if b == 0 {
        assert(total(0, g) == 0real);
    } else {
        lemma_total_split(a, (b - 1) as nat, f);
        assert((a + b - 1) as nat == a + (b - 1) as nat);
        assert(total(b, g) == total((b - 1) as nat, g) + g(b - 1));
        assert(total(a + b, f) == total((a + b - 1) as nat, f) + f(a + b - 1));
    }
}

/// A factor can be moved into a total.
pub proof fn lemma_total_scaled(
    n: nat,
    a: real,
    f: spec_fn(int) -> real,
    g: spec_fn(int) -> real,
)
    requires
        forall|i: int| 0 <= i < n ==> prod(a, f(i)) == #[trigger] g(i),
    ensures
        prod(a, total(n, f)) == total(n, g),
    decreases n,
{
    if n == 0 {
        lemma_prod_zero(a);
        lemma_prod_comm(0real, a);
    } else {
        lemma_total_scaled((n - 1) as nat, a, f, g);
        lemma_prod_add(a, total((n - 1) as nat, f), f(n - 1));
        assert(prod(a, f(n - 1)) == g(n - 1));
    }
}

/// A total of positive summands is positive.
pub proof fn lemma_total_positive(n: nat, f: spec_fn(int) -> real)
    requires
        n > 0,
        forall|i: int| 0 <= i < n ==> #[trigger] f(i) > 0real,
    ensures
        total(n, f) > 0real,
    decreases n,
{
    assert(f(n - 1) > 0real);
    if n > 1 {
        lemma_total_positive((n - 1) as nat, f);
    } else {
        assert(total(0, f) == 0real);
    }
}

/// `n` equal summands.
pub proof fn lemma_total_constant(n: nat, x: real)
    ensures
        total(n, |i: int| x) == prod(n as real, x),
    decreases n,
{
    if n == 0 {
        lemma_prod_zero(x);
    } else {
        lemma_total_constant((n - 1) as nat, x);
        lemma_prod_succ((n - 1) as real, x);
        assert(n as real == (n - 1) as real + 1real);
    }
}

/// Summands that are zero from `n` on can be dropped.
pub proof fn lemma_total_tail(n: nat, k: nat, f: spec_fn(int) -> real)
    requires
        n <= k,
        forall|i: int| n <= i < k ==> #[trigger] f(i) == 0real,
    ensures
        total(k, f) == total(n, f),
    decreases k - n,
{
    if n < k {
        lemma_total_tail(n, (k - 1) as nat, f);
        assert(f(k - 1) == 0real);
    }
}

/// A sum that is accumulated tile by tile, with lanes of value zero beyond column `n`,
/// is the total over the columns.
pub proof fn lemma_tiled_sum(
    lane: spec_fn(int) -> Expr,
    block: int,
    tiles: nat,
    n: nat,
    m: Model,
    f: spec_fn(int) -> real,
)
    requires
        block > 0,
        forall|c: int| 0 <= c ==> eval(#[trigger] lane(c), m) == Value::Fin(f(c)),
        forall|c: int| n <= c ==> #[trigger] f(c) == 0real,
        n <= tiles * block,
    ensures
        eval(tiled_sum(lane, block, tiles), m) == Value::Fin(total(n, f)),
{
    lemma_tiled_total(lane, block, tiles, m, f);
    assert(tiles * block >= 0);
    lemma_total_tail(n, (tiles * block) as nat, f);
}

/// A sum that is accumulated tile by tile is the total over all lanes.
proof fn lemma_tiled_total(
    lane: spec_fn(int) -> Expr,
    block: int,
    tiles: nat,
    m: Model,
    f: spec_fn(int) -> real,
)
    requires
        block > 0,
        forall|c: int| 0 <= c ==> eval(#[trigger] lane(c), m) == Value::Fin(f(c)),
    ensures
        tiles * block >= 0,
        eval(tiled_sum(lane, block, tiles), m) == Value::Fin(total((tiles * block) as nat, f)),
    decreases tiles,
{
    if tiles == 0 {
        lemma_zero_value(m);
        assert(tiles * block == 0) by (nonlinear_arith)
            requires
                tiles == 0,
        ;
    } else {
        let below = (tiles - 1) as nat;
        let first = below * block;
        lemma_tiled_total(lane, block, below, m, f);
        assert(tiles * block == first + block) by (nonlinear_arith)
            requires
                tiles == below + 1,
                first == below * block,
        ;
        let tile = Seq::new(block as nat, |i: int| lane(first + i));
        let g = |i: int| f(first + i);
        assert forall|i: int| 0 <= i < tile.len() implies eval(#[trigger] tile[i], m)
            == Value::Fin(g(i)) by {
            assert(tile[i] == lane(first + i));
        }
        lemma_sum_value(tile, m, g);
        lemma_total_split(first as nat, block as nat, f);
        lemma_total_eq(block as nat, |i: int| f(first as nat + i), g);
        let acc = tiled_sum(lane, block, below);
        assert(eval(acc.plus(sum_of(tile)), m) == bin_value(
            BinOp::Add,
            eval(acc, m),
            eval(sum_of(tile), m),
        ));
    }
}

// ---------------------------------------------------------------------------
// Launches
// ---------------------------------------------------------------------------
/// `seen` differs from `m` at most in what buffers other than `inputs` hold. No block
/// of a launch writes its inputs, so every block sees such a memory, whatever other
/// blocks have done before and meanwhile.
pub open spec fn same_inputs(seen: Model, m: Model, inputs: Set<int>) -> bool {
    &&& seen.arg == m.arg
    &&& seen.exp == m.exp
    &&& seen.log == m.log
    &&& seen.sin == m.sin
    &&& seen.cos == m.cos
    &&& seen.sigmoid == m.sigmoid
    &&& seen.rsqrt == m.rsqrt
    &&& forall|buf: int, off: int|
        #![trigger (seen.load)(buf, off)]
        inputs.contains(buf) ==> (seen.load)(buf, off) == (m.load)(buf, off)
}

/// What a block with the atomic additions `adds` adds to `cell`.
pub open spec fn added(adds: Map<(int, int), Expr>, cell: (int, int), m: Model) -> real {
    if adds.dom().contains(cell) {
        eval(adds[cell], m)->Fin_0
    } else {
        0real
    }
}

/// What a cell that held `before` holds after the blocks of `order` have added their
/// terms.
pub open spec fn accumulated(before: real, order: Seq<int>, term: spec_fn(int) -> real) -> real
    decreases order.len(),
{
    if order.len() == 0 {
        before
    } else {
        accumulated(before, order.drop_last(), term) + term(order.last())
    }
}

/// `order` lists each of `0`, ..., `n - 1` once.
pub open spec fn each_once(order: Seq<int>, n: nat) -> bool {
    &&& order.no_duplicates()
    &&& forall|r: int| #[trigger] order.contains(r) <==> 0 <= r < n
}

/// The term at position `p` can be added last.
proof fn lemma_accumulated_remove(
    before: real,
    order: Seq<int>,
    p: int,
    term: spec_fn(int) -> real,
)
    requires
        0 <= p < order.len(),
    ensures
        accumulated(before, order, term) == accumulated(before, order.remove(p), term) + term(
            order[p],
        ),
    decreases order.len(),
{
    let last = order.len() - 1;
    if p == last {
        assert(order.remove(p) =~= order.drop_last());
    } else {
        lemma_accumulated_remove(before, order.drop_last(), p, term);
        assert(order.remove(p).drop_last() =~= order.drop_last().remove(p));
        assert(order.remove(p).last() == order.last());
    }
}

/// Whatever the order, a cell ends with the total of the terms.
pub proof fn lemma_accumulated(
    before: real,
    order: Seq<int>,
    n: nat,
    term: spec_fn(int) -> real,
)
    requires
        each_once(order, n),
    ensures
        accumulated(before, order, term) == before + total(n, term),
    decreases n,
{
    if n == 0 {
        if order.len() > 0 {
            assert(order.contains(order[0]));
        }
    } else {
        assert(order.contains(n - 1));
        let p = choose|p: int| 0 <= p < order.len() && order[p] == n - 1;
        let rest = order.remove(p);
        lemma_accumulated_remove(before, order, p, term);
        assert forall|r: int| #[trigger] rest.contains(r) <==> 0 <= r < n - 1 by {
            if rest.contains(r) {
                let i = choose|i: int| 0 <= i < rest.len() && rest[i] == r;
                let j = if i < p {
                    i
                } else {
                    i + 1
                };
                assert(order[j] == r);
                assert(order.contains(r));
                assert(j != p);
            }
            if 0 <= r < n - 1 {
                assert(order.contains(r));
                let j = choose|j: int| 0 <= j < order.len() && order[j] == r;
                assert(rest[if j < p {
                    j
                } else {
                    j - 1
                }] == r);
            }
        }
        assert(rest.no_duplicates());
        lemma_accumulated(before, rest, (n - 1) as nat, term);
    }
}

/// Summands that are zero outside of `len` positions from `first` on can be dropped.
pub proof fn lemma_total_window(first: nat, len: nat, n: nat, f: spec_fn(int) -> real)
    requires
        first + len <= n,
        forall|i: int|
            0 <= i < n && !(first <= i < first + len) ==> #[trigger] f(i) == 0real,
    ensures
        total(n, f) == total(len, |i: int| f(first + i)),
{
    lemma_total_tail(first + len, n, f);
    lemma_total_split(first, len, f);
    lemma_total_tail(0, first, f);
    assert(total(0, f) == 0real);
}

/// Expressions over numbers mean what they are called: loads and integers their values,
/// the four operations and the maximum those of the real numbers, each function its own,
/// and a sum adds its lanes up.
pub proof fn expressions_mean_their_names(a: Expr, b: Expr, x: real, y: real, m: Model)
    requires
        eval(a, m) == Value::Fin(x),
        eval(b, m) == Value::Fin(y),
    ensures
        forall|buf: usize, off: i32|
            #[trigger] eval(Expr::Load { buf, off }, m) == Value::Fin(
                (m.load)(buf as int, off as int),
            ),
        forall|n: i32| #[trigger] eval(Expr::Int(n), m) == Value::Fin(n as real),
        forall|i: usize| #[trigger] eval(Expr::Arg(i), m) == (m.arg)(i as int),
        eval(a.plus(b), m) == Value::Fin(x + y),
        eval(a.minus(b), m) == Value::Fin(x - y),
        eval(a.times(b), m) == Value::Fin(x * y),
        y != 0real ==> eval(a.over(b), m) == Value::Fin(x / y),
        eval(a.maximum(b), m) == Value::Fin(
            if x >= y {
                x
            } else {
                y
            },
        ),
        eval(a.apply(UnOp::Neg), m) == Value::Fin(-x),
        eval(a.apply(UnOp::Exp), m) == Value::Fin((m.exp)(x)),
        x > 0real ==> eval(a.apply(UnOp::Log), m) == Value::Fin((m.log)(x)),
        eval(a.apply(UnOp::Sin), m) == Value::Fin((m.sin)(x)),
        eval(a.apply(UnOp::Cos), m) == Value::Fin((m.cos)(x)),
        eval(a.apply(UnOp::Sigmoid), m) == Value::Fin((m.sigmoid)(x)),
        x > 0real ==> eval(a.apply(UnOp::Rsqrt), m) == Value::Fin((m.rsqrt)(x)),
        eval(a.apply(UnOp::Cast), m) == Value::Fin(x),
        eval(sum_of(seq![a, b]), m) == Value::Fin(x + y),
        forall|n: nat, f: spec_fn(int) -> real| #[trigger]
            total(n + 1, f) == total(n, f) + f(n as int),
        forall|f: spec_fn(int) -> real| #[trigger] total(0, f) == 0real,
{
    products_and_quotients(x, y);
    let two = seq![a, b];
    assert(two.drop_first() =~= seq![b]);
    assert(seq![b].drop_first() =~= Seq::<Expr>::empty());
    assert(lanes_of(Seq::<Expr>::empty()) == Lanes::Nil);
    assert(lanes_of(seq![b]) == Lanes::Cons(Box::new(b), Box::new(Lanes::Nil)));
    assert(lanes_of(two) == Lanes::Cons(Box::new(a), Box::new(lanes_of(seq![b]))));
    assert(eval_lanes(Lanes::Nil, m) == Value::Fin(0real));
    assert(eval_lanes(lanes_of(seq![b]), m) == Value::Fin(y + 0real));
    assert(eval_lanes(lanes_of(two), m) == Value::Fin(x + y));
    assert(eval(sum_of(two), m) == eval_lanes(lanes_of(two), m));
}

} // verus!
