//! Algebra of real numbers.
//!
//! Products and quotients of reals stand behind the opaque [`prod`] and [`quot`]:
//! the solver reasons about them through the lemmas here and no further.

use vstd::prelude::*;

verus! {

/// `x · y`.
#[verifier::opaque]
pub open spec fn prod(x: real, y: real) -> real {
    x * y
}

/// `x / y`.
#[verifier::opaque]
pub open spec fn quot(x: real, y: real) -> real {
    x / y
}

/// [`prod`] and [`quot`] are multiplication and division.
pub proof fn products_and_quotients(x: real, y: real)
    ensures
        prod(x, y) == x * y,
        quot(x, y) == x / y,
{
    reveal(prod);
    reveal(quot);
}

/// Zero times anything is zero.
pub broadcast proof fn lemma_prod_zero(x: real)
    ensures
        #[trigger] prod(0real, x) == 0real,
{
    reveal(prod);
    assert(0real * x == 0real) by (nonlinear_arith);
}

/// A nonzero number divided by itself is one.
pub proof fn lemma_quot_self(x: real)
    requires
        x != 0real,
    ensures
        quot(x, x) == 1real,
{
    reveal(quot);
    assert(x / x == 1real) by (nonlinear_arith)
        requires
            x != 0real,
    ;
}

/// Zero divided by a nonzero number is zero.
pub proof fn lemma_quot_zero(x: real)
    requires
        x != 0real,
    ensures
        quot(0real, x) == 0real,
{
    reveal(quot);
    assert(0real / x == 0real) by (nonlinear_arith)
        requires
            x != 0real,
    ;
}

/// Multiplication distributes over addition.
pub proof fn lemma_prod_add(a: real, x: real, y: real)
    ensures
        prod(a, x + y) == prod(a, x) + prod(a, y),
{
    reveal(prod);
    assert(a * (x + y) == a * x + a * y) by (nonlinear_arith);
}

/// Multiplication is associative.
pub proof fn lemma_prod_assoc(x: real, y: real, z: real)
    ensures
        prod(x, prod(y, z)) == prod(prod(x, y), z),
{
    reveal(prod);
    assert(x * (y * z) == (x * y) * z) by (nonlinear_arith);
}

/// Multiplication is commutative.
pub proof fn lemma_prod_comm(x: real, y: real)
    ensures
        prod(x, y) == prod(y, x),
{
    reveal(prod);
    assert(x * y == y * x) by (nonlinear_arith);
}

/// One more factor.
pub proof fn lemma_prod_succ(n: real, x: real)
    ensures
        prod(n + 1real, x) == prod(n, x) + x,
{
    reveal(prod);
    assert((n + 1real) * x == n * x + x) by (nonlinear_arith);
}

/// A quotient is what times the divisor gives the dividend.
pub proof fn lemma_quot_unique(q: real, x: real, y: real)
    requires
        y != 0real,
        prod(q, y) == x,
    ensures
        quot(x, y) == q,
{
    reveal(prod);
    reveal(quot);
    assert((q * y) / y == q) by (nonlinear_arith)
        requires
            y != 0real,
    ;
}

/// A quotient times its divisor is the dividend.
pub proof fn lemma_quot_times(x: real, y: real)
    requires
        y != 0real,
    ensures
        prod(quot(x, y), y) == x,
{
    reveal(prod);
    reveal(quot);
    assert((x / y) * y == x) by (nonlinear_arith)
        requires
            y != 0real,
    ;
}

/// A product of nonzero factors is nonzero.
pub proof fn lemma_prod_nonzero(x: real, y: real)
    requires
        x != 0real,
        y != 0real,
    ensures
        prod(x, y) != 0real,
{
    reveal(prod);
    assert(x * y != 0real) by (nonlinear_arith)
        requires
            x != 0real,
            y != 0real,
    ;
}

/// A common factor cancels.
pub proof fn lemma_quot_cancel(z: real, x: real, y: real)
    requires
        z != 0real,
        y != 0real,
    ensures
        quot(prod(z, x), prod(z, y)) == quot(x, y),
{
    let q = quot(x, y);
    lemma_quot_times(x, y);
    lemma_prod_nonzero(z, y);
    lemma_prod_assoc(q, z, y);
    lemma_prod_comm(q, z);
    lemma_prod_assoc(z, q, y);
    lemma_quot_unique(q, prod(z, x), prod(z, y));
}

/// Rotating by an angle and back.
pub proof fn lemma_rotation(x: real, y: real, c: real, s: real, u: real, v: real)
    requires
        prod(c, c) + prod(s, s) == 1real,
        u == prod(x, c) - prod(y, s),
        v == prod(x, s) + prod(y, c),
    ensures
        prod(u, c) + prod(v, s) == x,
        prod(-u, s) + prod(v, c) == y,
{
    reveal(prod);
    assert((x * c - y * s) * c == x * (c * c) - y * (s * c)) by (nonlinear_arith);
    assert((x * s + y * c) * s == x * (s * s) + y * (s * c)) by (nonlinear_arith);
    assert(x * (c * c) + x * (s * s) == x * (c * c + s * s)) by (nonlinear_arith);
    assert(-(x * c - y * s) * s == -x * (s * c) + y * (s * s)) by (nonlinear_arith);
    assert((x * s + y * c) * c == x * (s * c) + y * (c * c)) by (nonlinear_arith);
    assert(y * (c * c) + y * (s * s) == y * (c * c + s * s)) by (nonlinear_arith);
    assert(-x * (s * c) + x * (s * c) == 0real) by (nonlinear_arith);
    assert(x * 1real == x && y * 1real == y) by (nonlinear_arith);
    assert(u * c == (x * c - y * s) * c);
    assert(v * s == (x * s + y * c) * s);
    assert(-u * s == -(x * c - y * s) * s);
    assert(v * c == (x * s + y * c) * c);
    assert(x * (c * c + s * s) == x * 1real);
    assert(y * (c * c + s * s) == y * 1real);
}

} // verus!
