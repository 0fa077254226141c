//! IEEE 754 values by their bit patterns.
//!
//! A finite single-precision pattern `b` stands for `±magnitude_f32(b) · 2^-149`, a
//! half-precision one for `±magnitude_f16(b) · 2^-24`, a double-precision one for
//! `±magnitude_f64(b) · 2^-1074`. Conversions are stated over these integers;
//! rounding is to the nearest value, ties to even.

use vstd::arithmetic::power2::{lemma_pow2_adds, lemma_pow2_pos, lemma_pow2_unfold, pow2};
use vstd::prelude::*;

verus! {

/// The bit pattern of a single-precision value.
pub type F32Bits = u32;

/// The bit pattern of a double-precision value.
pub type F64Bits = u64;

/// Negative infinity, single precision.
pub const F32_NEG_INFINITY: F32Bits = 0xFF80_0000;

/// Positive infinity, single precision.
pub const F32_INFINITY: F32Bits = 0x7F80_0000;

/// One, single precision.
pub const F32_ONE: F32Bits = 0x3F80_0000;

/// Minus two, single precision.
pub const F32_MINUS_TWO: F32Bits = 0xC000_0000;

/// `2^23`, the weight of the hidden bit of a single-precision significand.
pub const F32_HIDDEN: u32 = 0x80_0000;

// ---------------------------------------------------------------------------
// Rounding
// ---------------------------------------------------------------------------
/// The integer nearest to `num / den`; of two, the even one.
pub open spec fn nearest(num: nat, den: nat) -> nat
    recommends
        den > 0,
{
    let q = num / den;
    let r = num % den;
    if 2 * r < den || (2 * r == den && q % 2 == 0) {
        q
    } else {
        q + 1
    }
}

/// No integer is nearer to `num / den` than `nearest(num, den)`.
pub proof fn nearest_is_closest(num: nat, den: nat, k: int)
    requires
        den > 0,
    ensures
        ({
            let d = nearest(num, den) * den - num;
            let e = k * den - num;
            (if d < 0 { -d } else { d }) <= (if e < 0 { -e } else { e })
        }),
{
    let q = (num / den) as int;
    let r = (num % den) as int;
    let den = den as int;
    assert(num == q * den + r && 0 <= r < den) by {
        vstd::arithmetic::div_mod::lemma_fundamental_div_mod(num as int, den);
        assert(den * q == q * den) by (nonlinear_arith);
    }
    assert((q + 1) * den == q * den + den) by (nonlinear_arith);
    if k <= q {
        assert(k * den <= q * den) by (nonlinear_arith)
            requires
                k <= q,
                den > 0,
        ;
    } else {
        assert(k * den >= (q + 1) * den) by (nonlinear_arith)
            requires
                k >= q + 1,
                den > 0,
        ;
    }
}

fn round_div(num: u128, den: u128) -> (r: u128)
    requires
        den > 0,
        num < 0x1_0000_0000_0000_0000_0000_0000_0000,
        den < 0x1_0000_0000_0000_0000_0000_0000_0000,
    ensures
        r == nearest(num as nat, den as nat),
{
    let q: u128 = num / den;
    let rest: u128 = num % den;
    assert(q <= num) by (nonlinear_arith)
        requires
            q == num / den,
            den > 0,
    ;
    if 2 * rest < den || (2 * rest == den && q % 2 == 0) {
        q
    } else {
        q + 1
    }
}

/// `s` is the integer nearest to the square root of `n`.
pub open spec fn is_nearest_root(s: nat, n: nat) -> bool {
    4 * n <= (2 * s + 1) * (2 * s + 1) && (s > 0 ==> (2 * s - 1) * (2 * s - 1) <= 4 * n)
}

/// The integer nearest to the square root of `n`.
pub open spec fn nearest_root(n: nat) -> nat {
    choose|s: nat| is_nearest_root(s, n)
}

/// There is one integer nearest to a square root.
pub proof fn nearest_root_is_unique(s: nat, n: nat)
    requires
        is_nearest_root(s, n),
    ensures
        nearest_root(n) == s,
{
    let t = nearest_root(n);
    assert(is_nearest_root(t, n));
    lemma_root_order(s, t, n);
    lemma_root_order(t, s, n);
}

proof fn lemma_root_order(s: nat, t: nat, n: nat)
    requires
        is_nearest_root(s, n),
        is_nearest_root(t, n),
    ensures
        t <= s,
{
    if s < t {
        let a = 2 * s + 1;
        let b = 2 * t - 1;
        assert(a * a <= b * b) by (nonlinear_arith)
            requires
                0 <= a <= b,
        ;
        assert(a * a == 4 * (s * s + s) + 1) by (nonlinear_arith)
            requires
                a == 2 * s + 1,
        ;
    }
}

fn round_root(n: u64) -> (s: u64)
    requires
        n < 0x1_0000_0000_0000,
    ensures
        s == nearest_root(n as nat),
        is_nearest_root(s as nat, n as nat),
        s <= 0x100_0000,
{
    let mut lo: u64 = 0;
    let mut hi: u64 = 0x100_0000;
    while hi - lo > 1
        invariant
            lo < hi <= 0x100_0000,
            lo * lo <= n,
            n < hi * hi,
        decreases hi - lo,
    {
        let mid: u64 = lo + (hi - lo) / 2;
        assert(mid * mid <= 0x100_0000 * 0x100_0000) by (nonlinear_arith)
            requires
                mid <= 0x100_0000,
        ;
        if mid * mid <= n {
            lo = mid;
        } else {
            hi = mid;
        }
    }
    assert(lo * lo <= 0x100_0000 * 0x100_0000) by (nonlinear_arith)
        requires
            lo <= 0x100_0000,
    ;
    assert((lo + 1) * (lo + 1) == lo * lo + 2 * lo + 1) by (nonlinear_arith);
    let s: u64 = if n - lo * lo > lo {
        lo + 1
    } else {
        lo
    };
    proof {
        let l = lo as int;
        assert((2 * l + 1) * (2 * l + 1) == 4 * (l * l) + 4 * l + 1) by (nonlinear_arith);
        assert((2 * l - 1) * (2 * l - 1) == 4 * (l * l) - 4 * l + 1) by (nonlinear_arith);
        assert((2 * l + 3) * (2 * l + 3) == 4 * (l * l) + 12 * l + 9) by (nonlinear_arith);
        assert(is_nearest_root(s as nat, n as nat));
        nearest_root_is_unique(s as nat, n as nat);
    }
    s
}

/// The exponent of the highest power of two that is at most `n`.
pub open spec fn floor_log2(n: nat) -> nat
    decreases n,
{
    if n <= 1 {
        0
    } else {
        1 + floor_log2(n / 2)
    }
}

/// `2^k` is the highest power of two that is at most `n`.
proof fn lemma_floor_log2(n: nat, k: nat)
    requires
        pow2(k) <= n < 2 * pow2(k),
    ensures
        floor_log2(n) == k,
    decreases k,
{
    if k == 0 {
        assert(pow2(0) == 1) by {
            vstd::arithmetic::power2::lemma2_to64();
        }
    } else {
        lemma_pow2_unfold(k);
        lemma_pow2_pos((k - 1) as nat);
        lemma_floor_log2(n / 2, (k - 1) as nat);
    }
}

// ---------------------------------------------------------------------------
// Softmax scale
// ---------------------------------------------------------------------------
/// The pattern of `sig · 2^(exp - 23)`, for `2^23 <= sig <= 2^24`.
pub open spec fn pattern_f32(exp: int, sig: int) -> int {
    (exp + 127) * F32_HIDDEN + (sig - F32_HIDDEN)
}

/// The pattern of the single-precision value nearest to `n`.
pub open spec fn f32_from_nat(n: nat) -> int {
    if n == 0 {
        0
    } else {
        let e = floor_log2(n);
        pattern_f32(e as int, nearest(n * pow2(23), pow2(e)) as int)
    }
}

/// The pattern of the single-precision value nearest to the square root of the
/// positive normal value with pattern `b`.
pub open spec fn f32_sqrt(b: int) -> int {
    let e = b / F32_HIDDEN as int - 127;
    let sig = (b % F32_HIDDEN as int + F32_HIDDEN) as nat;
    let scaled = if e % 2 == 0 {
        sig * 0x80_0000
    } else {
        sig * 0x100_0000
    };
    pattern_f32(e / 2, nearest_root(scaled) as int)
}

/// The pattern of the single-precision value nearest to the reciprocal of the
/// positive normal value with pattern `b`, of magnitude at most `2^125`.
pub open spec fn f32_recip(b: int) -> int {
    let e = b / F32_HIDDEN as int - 127;
    let sig = (b % F32_HIDDEN as int + F32_HIDDEN) as nat;
    pattern_f32(-e - 1, nearest(0x8000_0000_0000, sig) as int)
}

/// The pattern of `1 / √n`, each of conversion, root and division rounded to single
/// precision. The reciprocal of zero is infinity.
pub open spec fn softmax_scale_bits(n: nat) -> int {
    if n == 0 {
        F32_INFINITY as int
    } else {
        f32_recip(f32_sqrt(f32_from_nat(n)))
    }
}

/// `n as f32`, by its bit pattern.
fn usize_to_f32(n: usize) -> (b: F32Bits)
    ensures
        b == f32_from_nat(n as nat),
        n > 0 ==> 0x3F80_0000 <= b <= 0x5F80_0000,
{
    if n == 0 {
        return 0;
    }
    let mut p: u128 = 1;
    let mut e: u32 = 0;
    proof {
        vstd::arithmetic::power2::lemma2_to64();
    }
    while p <= (n / 2) as u128
        invariant
            p == pow2(e as nat),
            1 <= p <= n,
            n <= 0xFFFF_FFFF_FFFF_FFFF,
            e <= 63,
        decreases n - p,
    {
        proof {
            lemma_pow2_unfold((e + 1) as nat);
            if e == 63 {
                vstd::arithmetic::power2::lemma2_to64();
                vstd::arithmetic::power2::lemma2_to64_rest();
            }
        }
        p = p * 2;
        e = e + 1;
    }
    proof {
        lemma_floor_log2(n as nat, e as nat);
    }
    let scaled: u128 = n as u128 * 0x80_0000;
    let sig: u128 = round_div(scaled, p);
    proof {
        let num = scaled as int;
        let den = p as int;
        assert(0x80_0000 * den <= num < 0x100_0000 * den);
        assert(0x80_0000 <= num / den < 0x100_0000) by (nonlinear_arith)
            requires
                den > 0,
                0x80_0000 * den <= num < 0x100_0000 * den,
        ;
    }
    (e + 127) * F32_HIDDEN + (sig as u32 - F32_HIDDEN)
}

/// The square root of a value of at least one, by bit patterns.
fn sqrt_f32(b: F32Bits) -> (r: F32Bits)
    requires
        0x3F80_0000 <= b <= 0x5F80_0000,
    ensures
        r == f32_sqrt(b as int),
        0x3F80_0000 <= r <= 0x5F80_0000,
{
    let e: u32 = b / F32_HIDDEN - 127;
    let sig: u64 = (b % F32_HIDDEN + F32_HIDDEN) as u64;
    let scaled: u64 = if e % 2 == 0 {
        sig * 0x80_0000
    } else {
        sig * 0x100_0000
    };
    let s: u64 = round_root(scaled);
    proof {
        let t = 2 * s + 1;
        if s < 0x80_0000 {
            assert(t * t <= 0xFF_FFFF * 0xFF_FFFF) by (nonlinear_arith)
                requires
                    0 <= t <= 0xFF_FFFF,
            ;
        }
    }
    (e / 2 + 127) * F32_HIDDEN + (s as u32 - F32_HIDDEN)
}

/// The reciprocal of a value of at least one, by bit patterns.
fn recip_f32(b: F32Bits) -> (r: F32Bits)
    requires
        0x3F80_0000 <= b <= 0x5F80_0000,
    ensures
        r == f32_recip(b as int),
{
    let e: u32 = b / F32_HIDDEN - 127;
    let sig: u128 = (b % F32_HIDDEN + F32_HIDDEN) as u128;
    let s: u128 = round_div(0x8000_0000_0000, sig);
    proof {
        let den = sig as int;
        assert(0x80_0000 <= 0x8000_0000_0000int / den <= 0x100_0000) by (nonlinear_arith)
            requires
                0x80_0000 <= den < 0x100_0000,
        ;
        if den == 0x80_0000 {
            assert(0x8000_0000_0000int / den == 0x100_0000 && 0x8000_0000_0000int % den == 0)
                by (nonlinear_arith)
                requires
                    den == 0x80_0000,
            ;
        } else {
            assert(0x8000_0000_0000int / den < 0x100_0000) by (nonlinear_arith)
                requires
                    0x80_0001 <= den < 0x100_0000,
            ;
        }
    }
    (126 - e) * F32_HIDDEN + (s as u32 - F32_HIDDEN)
}

/// `1 / √n` in single precision.
pub fn inv_sqrt(n: usize) -> (b: F32Bits)
    ensures
        b == softmax_scale_bits(n as nat),
{
    if n == 0 {
        return F32_INFINITY;
    }
    recip_f32(sqrt_f32(usize_to_f32(n)))
}

// ---------------------------------------------------------------------------
// Half precision and brain floating point to single precision
// ---------------------------------------------------------------------------
/// The sign bit of a half-precision pattern.
pub open spec fn sign_f16(h: u16) -> int {
    h as int / 0x8000
}

/// The biased exponent of a half-precision pattern; 31 for infinities and NaNs.
pub open spec fn exponent_f16(h: u16) -> int {
    h as int / 0x400 % 0x20
}

/// The fraction field of a half-precision pattern.
pub open spec fn fraction_f16(h: u16) -> int {
    h as int % 0x400
}

/// The absolute value of a finite half-precision pattern, in units of `2^-24`.
pub open spec fn magnitude_f16(h: u16) -> int {
    if exponent_f16(h) == 0 {
        fraction_f16(h)
    } else {
        (0x400 + fraction_f16(h)) * pow2((exponent_f16(h) - 1) as nat)
    }
}

/// The sign bit of a single-precision pattern.
pub open spec fn sign_f32(b: u32) -> int {
    b as int / 0x8000_0000
}

/// The biased exponent of a single-precision pattern; 255 for infinities and NaNs.
pub open spec fn exponent_f32(b: u32) -> int {
    b as int / 0x80_0000 % 0x100
}

/// The fraction field of a single-precision pattern.
pub open spec fn fraction_f32(b: u32) -> int {
    b as int % 0x80_0000
}

/// The absolute value of a finite single-precision pattern, in units of `2^-149`.
pub open spec fn magnitude_f32(b: u32) -> int {
    if exponent_f32(b) == 0 {
        fraction_f32(b)
    } else {
        (0x80_0000 + fraction_f32(b)) * pow2((exponent_f32(b) - 1) as nat)
    }
}

/// The single-precision pattern of the half-precision value with pattern `h`.
pub open spec fn f16_widened(h: u16) -> int {
    let e = exponent_f16(h);
    let m = fraction_f16(h);
    sign_f16(h) * 0x8000_0000 + (if e == 0x1F {
        0x7F80_0000 + m * 0x2000
    } else if e > 0 {
        pattern_f32(e - 15, (0x400 + m) * 0x2000)
    } else if m > 0 {
        let k = floor_log2(m as nat);
        pattern_f32(k - 24, m * pow2((23 - k) as nat))
    } else {
        0
    })
}

/// A pattern with a hidden bit has the magnitude that [`pattern_f32`] says.
proof fn lemma_pattern_f32(b: u32, sign: int, exp: int, sig: int)
    requires
        sign == 0 || sign == 1,
        -126 <= exp <= 127,
        0x80_0000 <= sig < 0x100_0000,
        b == sign * 0x8000_0000 + pattern_f32(exp, sig),
    ensures
        sign_f32(b) == sign,
        exponent_f32(b) == exp + 127,
        fraction_f32(b) == sig - 0x80_0000,
        magnitude_f32(b) == sig * pow2((exp + 126) as nat),
{
}

/// Half precision to single precision. The value is kept exactly; infinities and
/// NaNs stay what they are, with their payload.
pub fn f16_to_f32(h: u16) -> (b: F32Bits)
    ensures
        b == f16_widened(h),
        sign_f32(b) == sign_f16(h),
        exponent_f16(h) < 0x1F ==> exponent_f32(b) < 0xFF && magnitude_f32(b) == magnitude_f16(h)
            * pow2(125),
        exponent_f16(h) == 0x1F ==> exponent_f32(b) == 0xFF && fraction_f32(b) == fraction_f16(h)
            * 0x2000,
{
    let sign: u32 = (h / 0x8000) as u32 * 0x8000_0000;
    let exponent: u32 = (h / 0x400 % 0x20) as u32;
    let mantissa: u32 = (h % 0x400) as u32;
    if exponent == 0 {
        if mantissa == 0 {
            assert(0 * pow2(125) == 0);
            return sign;
        }
        let mut exp: u32 = 113;
        let mut mant: u32 = mantissa;
        let ghost mut j: nat = 0;
        assert(pow2(0) == 1 && pow2(10) == 0x400) by {
            vstd::arithmetic::power2::lemma2_to64();
        }
        while mant < 0x400
            invariant
                exp == 113 - j,
                j <= 10,
                1 <= mant < 0x800,
                mant == mantissa * pow2(j),
                1 <= mantissa,
                pow2(10) == 0x400,
            decreases 0x800 - mant,
        {
            proof {
                if j == 10 {
                    assert(mantissa * 0x400 >= 0x400);
                }
                lemma_pow2_unfold(j + 1);
                assert(mantissa * (2 * pow2(j)) == 2 * (mantissa * pow2(j))) by (nonlinear_arith);
                j = j + 1;
            }
            mant = mant * 2;
            exp = exp - 1;
        }
        let b: u32 = sign + exp * F32_HIDDEN + (mant % 0x400) * 0x2000;
        proof {
            lemma_subnormal_f16(mantissa as int, mant as int, j);
            lemma_pattern_f32(b, sign_f16(h), exp as int - 127, mant * 0x2000);
            lemma_pow2_adds(13 + j, 125);
            lemma_pow2_adds(j, 13);
            lemma_pow2_adds(13 + j, (exp - 1) as nat);
            assert(pow2(13) == 0x2000) by {
                vstd::arithmetic::power2::lemma2_to64();
            }
            let m = mantissa as int;
            assert((m * pow2(j)) * pow2(13) * pow2((exp - 1) as nat) == m * ((pow2(j) * pow2(13))
                * pow2((exp - 1) as nat))) by (nonlinear_arith);
        }
        b
    } else if exponent == 0x1F {
        sign + 0x7F80_0000 + mantissa * 0x2000
    } else {
        let b: u32 = sign + (exponent + 112) * F32_HIDDEN + mantissa * 0x2000;
        proof {
            lemma_pattern_f32(b, sign_f16(h), exponent - 15, (0x400 + mantissa) * 0x2000);
            let p = pow2((exponent - 1) as nat) as int;
            lemma_pow2_adds(13, (exponent + 111) as nat);
            lemma_pow2_adds((exponent - 1) as nat, 125);
            assert(pow2(13) == 0x2000) by {
                vstd::arithmetic::power2::lemma2_to64();
            }
            let m = 0x400 + mantissa;
            let q = pow2((exponent + 111) as nat) as int;
            assert((m * 0x2000) * q == m * (0x2000 * q)) by (nonlinear_arith);
            assert(m * p * pow2(125) == m * (p * pow2(125))) by (nonlinear_arith);
        }
        b
    }
}

/// Doubling a half-precision subnormal fraction `m` until its hidden bit is set
/// takes `10 - floor_log2(m)` steps.
proof fn lemma_subnormal_f16(m: int, shifted: int, j: nat)
    requires
        m >= 1,
        j <= 10,
        shifted == m * pow2(j),
        0x400 <= shifted < 0x800,
    ensures
        floor_log2(m as nat) == 10 - j,
        m * pow2((13 + j) as nat) == shifted * 0x2000,
{
    let k = (10 - j) as nat;
    lemma_pow2_adds(j, k);
    lemma_pow2_adds(j, 13);
    lemma_pow2_pos(j);
    assert(pow2(10) == 0x400 && pow2(13) == 0x2000) by {
        vstd::arithmetic::power2::lemma2_to64();
    }
    let p = pow2(j) as int;
    let q = pow2(k) as int;
    assert(q <= m < 2 * q) by (nonlinear_arith)
        requires
            p * q <= m * p < 2 * (p * q),
            p > 0,
    ;
    lemma_floor_log2(m as nat, k);
    assert(m * (p * 0x2000) == (m * p) * 0x2000) by (nonlinear_arith);
}

/// `2^floor_log2(n)` is the highest power of two that is at most `n`.
proof fn lemma_floor_log2_bounds(n: nat)
    requires
        n >= 1,
    ensures
        pow2(floor_log2(n)) <= n < 2 * pow2(floor_log2(n)),
    decreases n,
{
    if n == 1 {
        assert(pow2(0) == 1) by {
            vstd::arithmetic::power2::lemma2_to64();
        }
    } else {
        lemma_floor_log2_bounds(n / 2);
        lemma_pow2_unfold(floor_log2(n));
    }
}

/// The pattern of a positive half-precision subnormal: its exponent is that of the
/// leading bit of the fraction, its own fraction is below the hidden bit.
proof fn lemma_widened_subnormal(m: int) -> (sig: int)
    requires
        1 <= m < 0x400,
    ensures
        floor_log2(m as nat) <= 9,
        sig == m * pow2((23 - floor_log2(m as nat)) as nat),
        F32_HIDDEN <= sig < 2 * F32_HIDDEN,
{
    let k = floor_log2(m as nat);
    lemma_floor_log2_bounds(m as nat);
    assert(pow2(10) == 0x400 && pow2(23) == 0x80_0000) by {
        vstd::arithmetic::power2::lemma2_to64();
    }
    if k > 9 {
        lemma_pow2_monotone(10, k);
    }
    let r = (23 - k) as nat;
    lemma_pow2_adds(k, r);
    lemma_pow2_pos(r);
    let (p, q) = (pow2(k) as int, pow2(r) as int);
    assert(p * q <= m * q < 2 * (p * q)) by (nonlinear_arith)
        requires
            p <= m < 2 * p,
            q > 0,
    ;
    m * pow2(r)
}

/// Powers of two grow with their exponent.
proof fn lemma_pow2_monotone(a: nat, b: nat)
    requires
        a <= b,
    ensures
        pow2(a) <= pow2(b),
    decreases b,
{
    if a < b {
        lemma_pow2_monotone(a, (b - 1) as nat);
        lemma_pow2_unfold(b);
    }
}

/// Widened patterns keep the order of half-precision patterns with a clear sign bit.
proof fn lemma_widened_order(a: u16, b: u16)
    requires
        a < b < 0x8000,
    ensures
        0 <= f16_widened(a) < f16_widened(b) < 0x8000_0000,
{
    let (m, n) = (fraction_f16(a), fraction_f16(b));
    if exponent_f16(a) == 0 && m > 0 {
        let sig = lemma_widened_subnormal(m);
    }
    if exponent_f16(b) == 0 {
        let big = lemma_widened_subnormal(n);
        if m > 0 {
            let small = lemma_widened_subnormal(m);
            let (j, k) = (floor_log2(m as nat), floor_log2(n as nat));
            lemma_floor_log2_bounds(m as nat);
            lemma_floor_log2_bounds(n as nat);
            if j > k {
                lemma_pow2_monotone(k + 1, j);
                lemma_pow2_unfold(k + 1);
            } else if j == k {
                let p = pow2((23 - k) as nat) as int;
                lemma_pow2_pos((23 - k) as nat);
                assert(m * p < n * p) by (nonlinear_arith)
                    requires
                        m < n,
                        p > 0,
                ;
            }
        }
    }
}

/// The sign bit of a half-precision pattern becomes that of the widened one, and the
/// bits below it decide the bits below it.
proof fn lemma_widened_sign(a: u16, low: u16)
    requires
        low < 0x8000,
        a == low || a == low + 0x8000,
    ensures
        0 <= f16_widened(low) < 0x8000_0000,
        f16_widened(a) == f16_widened(low) + (if a == low {
            0
        } else {
            0x8000_0000int
        }),
{
    assert(exponent_f16(a) == exponent_f16(low) && fraction_f16(a) == fraction_f16(low));
    if low > 0 {
        lemma_widened_order(0, low);
    }
}

/// Flipping the sign bit of a half-precision pattern flips that of the widened one.
pub proof fn f16_sign_symmetry(a: u16)
    ensures
        f16_widened(a ^ 0x8000) as u32 == (f16_widened(a) as u32) ^ 0x8000_0000,
{
    assert(a < 0x8000 ==> a ^ 0x8000 == a + 0x8000) by (bit_vector);
    assert(a >= 0x8000 ==> a ^ 0x8000 == a - 0x8000) by (bit_vector);
    let low = if a < 0x8000 {
        a
    } else {
        a ^ 0x8000
    };
    lemma_widened_sign(a, low);
    lemma_widened_sign(a ^ 0x8000, low);
    let b = f16_widened(a) as u32;
    assert(b < 0x8000_0000 ==> b ^ 0x8000_0000 == b + 0x8000_0000) by (bit_vector);
    assert(b >= 0x8000_0000 ==> b ^ 0x8000_0000 == b - 0x8000_0000) by (bit_vector);
}

/// The pattern `b` is that of a number, an infinity among them.
pub open spec fn is_number_f32(b: u32) -> bool {
    exponent_f32(b) < 0xFF || fraction_f32(b) == 0
}

/// The signed value of a single-precision pattern in units of `2^-149`. An infinity
/// counts as `2^128`, beyond every finite value.
pub open spec fn scaled_f32(b: u32) -> int {
    if sign_f32(b) == 0 {
        magnitude_f32(b)
    } else {
        -magnitude_f32(b)
    }
}

/// The number with pattern `a` is less than that with pattern `b`.
pub open spec fn less_f32(a: u32, b: u32) -> bool {
    is_number_f32(a) && is_number_f32(b) && scaled_f32(a) < scaled_f32(b)
}

/// Patterns of non-negative numbers are in the order of their values.
proof fn lemma_pattern_order(p: u32, q: u32)
    requires
        p < q <= 0x7F80_0000,
    ensures
        less_f32(p, q),
{
    let (e, f) = (exponent_f32(p), exponent_f32(q));
    let (x, y) = (fraction_f32(p), fraction_f32(q));
    assert(pow2(0) == 1) by {
        vstd::arithmetic::power2::lemma2_to64();
    }
    if e == f {
        if e > 0 {
            let r = pow2((e - 1) as nat) as int;
            lemma_pow2_pos((e - 1) as nat);
            assert((0x80_0000 + x) * r < (0x80_0000 + y) * r) by (nonlinear_arith)
                requires
                    x < y,
                    r > 0,
            ;
        }
    } else {
        let s = pow2((f - 1) as nat) as int;
        lemma_pow2_pos((f - 1) as nat);
        assert((0x80_0000 + y) * s >= 0x80_0000 * s) by (nonlinear_arith)
            requires
                y >= 0,
                s > 0,
        ;
        if e > 0 {
            let r = pow2((e - 1) as nat) as int;
            lemma_pow2_pos((e - 1) as nat);
            lemma_pow2_monotone(e as nat, (f - 1) as nat);
            lemma_pow2_unfold(e as nat);
            assert((0x80_0000 + x) * r < 0x100_0000 * r) by (nonlinear_arith)
                requires
                    x < 0x80_0000,
                    r > 0,
            ;
        }
    }
}

/// Widening keeps the order of non-negative numbers, up to infinity.
pub proof fn f16_order(a: u16, b: u16)
    requires
        a < b <= 0x7C00,
    ensures
        less_f32(f16_widened(a) as u32, f16_widened(b) as u32),
{
    lemma_widened_order(a, b);
    if b < 0x7C00 {
        lemma_widened_order(b, 0x7C00);
    }
    lemma_pattern_order(f16_widened(a) as u32, f16_widened(b) as u32);
}

/// Widening keeps distinct half-precision patterns distinct.
pub proof fn f16_injective(a: u16, b: u16)
    requires
        a != b,
    ensures
        f16_widened(a) as u32 != f16_widened(b) as u32,
{
    let x = if a < 0x8000 {
        a
    } else {
        (a - 0x8000) as u16
    };
    let y = if b < 0x8000 {
        b
    } else {
        (b - 0x8000) as u16
    };
    lemma_widened_sign(a, x);
    lemma_widened_sign(b, y);
    if x < y {
        lemma_widened_order(x, y);
    } else if y < x {
        lemma_widened_order(y, x);
    }
}

/// Brain floating point to single precision: the pattern is the upper half of the
/// single-precision one.
pub fn bf16_to_f32(h: u16) -> (b: F32Bits)
    ensures
        b == h * 0x1_0000,
{
    h as u32 * 0x1_0000
}

// ---------------------------------------------------------------------------
// Between single and double precision
// ---------------------------------------------------------------------------
/// The sign bit of a double-precision pattern.
pub open spec fn sign_f64(w: u64) -> int {
    w as int / 0x8000_0000_0000_0000
}

/// The biased exponent of a double-precision pattern; 2047 for infinities and NaNs.
pub open spec fn exponent_f64(w: u64) -> int {
    w as int / 0x10_0000_0000_0000 % 0x800
}

/// The fraction field of a double-precision pattern.
pub open spec fn fraction_f64(w: u64) -> int {
    w as int % 0x10_0000_0000_0000
}

/// The absolute value of a finite double-precision pattern, in units of `2^-1074`.
pub open spec fn magnitude_f64(w: u64) -> int {
    if exponent_f64(w) == 0 {
        fraction_f64(w)
    } else {
        (0x10_0000_0000_0000 + fraction_f64(w)) * pow2((exponent_f64(w) - 1) as nat)
    }
}

/// A NaN fraction field with its quiet bit, the highest one, set.
pub open spec fn quieted(m: int) -> int {
    if m < 0x40_0000 {
        m + 0x40_0000
    } else {
        m
    }
}

/// The double-precision pattern of the single-precision value with pattern `b`.
pub open spec fn f32_widened(b: u32) -> int {
    let e = exponent_f32(b);
    let m = fraction_f32(b);
    sign_f32(b) * 0x8000_0000_0000_0000 + (if e == 0xFF {
        0x7FF0_0000_0000_0000 + (if m == 0 {
            0
        } else {
            quieted(m) * 0x2000_0000
        })
    } else if e > 0 {
        (e + 896) * 0x10_0000_0000_0000 + m * 0x2000_0000
    } else if m > 0 {
        let k = floor_log2(m as nat);
        (k + 874) * 0x10_0000_0000_0000 + (m * pow2((52 - k) as nat) - 0x10_0000_0000_0000)
    } else {
        0
    })
}

/// Single precision to double precision. The value is kept exactly; a NaN becomes
/// quiet.
pub fn f32_to_f64(b: F32Bits) -> (w: F64Bits)
    ensures
        w == f32_widened(b),
        sign_f64(w) == sign_f32(b),
        exponent_f32(b) < 0xFF ==> exponent_f64(w) < 0x7FF && magnitude_f64(w) == magnitude_f32(b)
            * pow2(925),
        exponent_f32(b) == 0xFF ==> exponent_f64(w) == 0x7FF,
        exponent_f32(b) == 0xFF && fraction_f32(b) == 0 ==> fraction_f64(w) == 0,
        exponent_f32(b) == 0xFF && fraction_f32(b) > 0 ==> fraction_f64(w) == 0x2000_0000 * (
        if fraction_f32(b) < 0x40_0000 {
            fraction_f32(b) + 0x40_0000
        } else {
            fraction_f32(b)
        }),
{
    let sign: u64 = (b / 0x8000_0000) as u64 * 0x8000_0000_0000_0000;
    let exponent: u64 = (b / 0x80_0000 % 0x100) as u64;
    let mantissa: u64 = (b % 0x80_0000) as u64;
    if exponent == 0xFF {
        if mantissa == 0 {
            sign + 0x7FF0_0000_0000_0000
        } else if mantissa < 0x40_0000 {
            sign + 0x7FF0_0000_0000_0000 + (mantissa + 0x40_0000) * 0x2000_0000
        } else {
            sign + 0x7FF0_0000_0000_0000 + mantissa * 0x2000_0000
        }
    } else if exponent > 0 {
        let w: u64 = sign + (exponent + 896) * 0x10_0000_0000_0000 + mantissa * 0x2000_0000;
        proof {
            lemma_pow2_adds(29, (exponent + 895) as nat);
            lemma_pow2_adds((exponent - 1) as nat, 925);
            assert(pow2(29) == 0x2000_0000) by {
                vstd::arithmetic::power2::lemma2_to64();
            }
            let m = 0x80_0000 + mantissa;
            let q = pow2((exponent + 895) as nat) as int;
            let p = pow2((exponent - 1) as nat) as int;
            assert((m * 0x2000_0000) * q == m * (0x2000_0000 * q)) by (nonlinear_arith);
            assert(m * p * pow2(925) == m * (p * pow2(925))) by (nonlinear_arith);
        }
        w
    } else if mantissa == 0 {
        assert(0 * pow2(925) == 0);
        sign
    } else {
        let mut exp: u64 = 897;
        let mut mant: u64 = mantissa;
        let ghost mut j: nat = 0;
        assert(pow2(0) == 1 && pow2(23) == 0x80_0000 && pow2(29) == 0x2000_0000) by {
            vstd::arithmetic::power2::lemma2_to64();
        }
        while mant < 0x80_0000
            invariant
                exp == 897 - j,
                j <= 23,
                1 <= mant < 0x100_0000,
                mant == mantissa * pow2(j),
                1 <= mantissa,
                pow2(23) == 0x80_0000,
            decreases 0x100_0000 - mant,
        {
            proof {
                if j == 23 {
                    assert(mantissa * 0x80_0000 >= 0x80_0000);
                }
                lemma_pow2_unfold(j + 1);
                assert(mantissa * (2 * pow2(j)) == 2 * (mantissa * pow2(j))) by (nonlinear_arith);
                j = j + 1;
            }
            mant = mant * 2;
            exp = exp - 1;
        }
        let w: u64 = sign + exp * 0x10_0000_0000_0000 + (mant % 0x80_0000) * 0x2000_0000;
        proof {
            let m = mantissa as int;
            let k = (23 - j) as nat;
            lemma_pow2_adds(j, k);
            lemma_pow2_adds(j, 29);
            lemma_pow2_pos(j);
            let p = pow2(j) as int;
            let q = pow2(k) as int;
            assert(q <= m < 2 * q) by (nonlinear_arith)
                requires
                    p * q <= m * p < 2 * (p * q),
                    p > 0,
            ;
            lemma_floor_log2(m as nat, k);
            assert(m * (p * 0x2000_0000) == (m * p) * 0x2000_0000) by (nonlinear_arith);
            let r = pow2((exp - 1) as nat) as int;
            lemma_pow2_adds((29 + j) as nat, (exp - 1) as nat);
            assert((m * p) * 0x2000_0000 * r == m * ((p * 0x2000_0000) * r)) by (nonlinear_arith);
        }
        w
    }
}

/// The single-precision pattern nearest to the double-precision value with pattern
/// `w`. Values from halfway past the largest finite one on become infinite; a NaN
/// keeps the top of its payload and becomes quiet.
pub open spec fn f64_narrowed(w: u64) -> int {
    let e = exponent_f64(w);
    let m = fraction_f64(w);
    sign_f64(w) * 0x8000_0000 + (if e == 0x7FF {
        0x7F80_0000 + (if m == 0 {
            0
        } else {
            quieted(m / 0x2000_0000)
        })
    } else {
        let x = if e == 0 {
            1
        } else {
            e
        };
        let sig = if e == 0 {
            m
        } else {
            0x10_0000_0000_0000 + m
        };
        let rounded = if x >= 897 {
            (x - 897) * 0x80_0000 + nearest(sig as nat, pow2(29))
        } else {
            nearest(sig as nat, pow2((926 - x) as nat)) as int
        };
        if rounded < F32_INFINITY {
            rounded
        } else {
            F32_INFINITY as int
        }
    })
}

fn power_of_two(k: u64) -> (p: u128)
    requires
        k <= 64,
    ensures
        p == pow2(k as nat),
        1 <= p <= 0x1_0000_0000_0000_0000,
{
    let mut p: u128 = 1;
    let mut i: u64 = 0;
    proof {
        vstd::arithmetic::power2::lemma2_to64();
        vstd::arithmetic::power2::lemma2_to64_rest();
    }
    while i < k
        invariant
            i <= k <= 64,
            p == pow2(i as nat),
            forall|n: nat| n <= 64 ==> #[trigger] pow2(n) <= 0x1_0000_0000_0000_0000,
        decreases k - i,
    {
        proof {
            lemma_pow2_unfold((i + 1) as nat);
            assert(pow2((i + 1) as nat) <= 0x1_0000_0000_0000_0000);
        }
        p = p * 2;
        i = i + 1;
    }
    proof {
        lemma_pow2_pos(k as nat);
    }
    p
}

/// Double precision to single precision.
pub fn f64_to_f32(w: F64Bits) -> (b: F32Bits)
    ensures
        b == f64_narrowed(w),
{
    let sign: u32 = (w / 0x8000_0000_0000_0000) as u32 * 0x8000_0000;
    let exponent: u64 = w / 0x10_0000_0000_0000 % 0x800;
    let mantissa: u64 = w % 0x10_0000_0000_0000;
    if exponent == 0x7FF {
        if mantissa == 0 {
            return sign + 0x7F80_0000;
        }
        let top: u32 = (mantissa / 0x2000_0000) as u32;
        return if top < 0x40_0000 {
            sign + 0x7F80_0000 + (top + 0x40_0000)
        } else {
            sign + 0x7F80_0000 + top
        };
    }
    let x: u64 = if exponent == 0 {
        1
    } else {
        exponent
    };
    let sig: u64 = if exponent == 0 {
        mantissa
    } else {
        0x10_0000_0000_0000 + mantissa
    };
    let rounded: u128 = if x >= 897 {
        let p: u128 = power_of_two(29);
        assert(pow2(29) == 0x2000_0000) by {
            vstd::arithmetic::power2::lemma2_to64();
        }
        let q: u128 = round_div(sig as u128, p);
        (x - 897) as u128 * 0x80_0000 + q
    } else if x >= 862 {
        let p: u128 = power_of_two(926 - x);
        let q: u128 = round_div(sig as u128, p);
        proof {
            lemma_nearest_at_most(sig as nat, p as nat);
        }
        q
    } else {
        proof {
            lemma_nearest_vanishes(sig as nat, (926 - x) as nat);
        }
        0
    };
    if rounded < F32_INFINITY as u128 {
        sign + rounded as u32
    } else {
        sign + F32_INFINITY
    }
}

proof fn lemma_nearest_at_most(num: nat, den: nat)
    requires
        den > 0,
    ensures
        nearest(num, den) <= num + 1,
{
    assert(num / den <= num) by (nonlinear_arith)
        requires
            den > 0,
    ;
}

/// Less than half a unit rounds to nothing.
proof fn lemma_nearest_vanishes(num: nat, k: nat)
    requires
        num < 0x20_0000_0000_0000,
        k > 64,
    ensures
        nearest(num, pow2(k)) == 0,
{
    vstd::arithmetic::power2::lemma_pow2_strictly_increases(64, k);
    assert(pow2(64) == 0x1_0000_0000_0000_0000) by {
        vstd::arithmetic::power2::lemma2_to64();
    }
    vstd::arithmetic::div_mod::lemma_basic_div(num as int, pow2(k) as int);
    vstd::arithmetic::div_mod::lemma_small_mod(num, pow2(k));
}

// ---------------------------------------------------------------------------
// Single precision to integers
// ---------------------------------------------------------------------------
/// The value of a finite single-precision pattern, with its fraction cut off.
pub open spec fn truncated_f32(b: u32) -> int {
    let size = magnitude_f32(b) / pow2(149) as int;
    if sign_f32(b) == 0 {
        size
    } else {
        -size
    }
}

/// The pattern is finite, and its value without the fraction fits 32 bits.
pub open spec fn fits_i32(b: u32) -> bool {
    exponent_f32(b) < 0xFF && i32::MIN <= truncated_f32(b) <= i32::MAX
}

/// The integer part of a magnitude, by its exponent.
proof fn lemma_truncated(b: u32)
    ensures
        ({
            let e = exponent_f32(b);
            let sig = 0x80_0000 + fraction_f32(b);
            let size = magnitude_f32(b) / pow2(149) as int;
            &&& e < 127 ==> size == 0
            &&& 127 <= e < 150 ==> size == sig / pow2((150 - e) as nat) as int
            &&& 150 <= e ==> size == sig * pow2((e - 150) as nat)
            &&& 159 <= e ==> size > 0x8000_0000
        }),
{
    let e = exponent_f32(b);
    let sig = 0x80_0000 + fraction_f32(b);
    let unit = pow2(149) as int;
    lemma_pow2_pos(149);
    assert(pow2(23) == 0x80_0000 && pow2(24) == 0x100_0000 && pow2(9) == 0x200) by {
        vstd::arithmetic::power2::lemma2_to64();
    }
    if e == 0 {
        lemma_pow2_monotone(23, 149);
        vstd::arithmetic::div_mod::lemma_basic_div(fraction_f32(b), unit);
    } else if e < 150 {
        let (low, high) = ((e - 1) as nat, (150 - e) as nat);
        lemma_pow2_adds(low, high);
        lemma_pow2_pos(low);
        lemma_pow2_pos(high);
        let (p, q) = (pow2(low) as int, pow2(high) as int);
        assert(sig * p == p * sig) by (nonlinear_arith);
        vstd::arithmetic::div_mod::lemma_div_denominator(p * sig, p, q);
        vstd::arithmetic::div_mod::lemma_div_multiples_vanish(sig, p);
        if e < 127 {
            lemma_pow2_monotone(24, high);
            vstd::arithmetic::div_mod::lemma_basic_div(sig, q);
        }
    } else {
        let over = (e - 150) as nat;
        lemma_pow2_adds(over, 149);
        let q = pow2(over) as int;
        assert(sig * (q * unit) == unit * (sig * q)) by (nonlinear_arith);
        vstd::arithmetic::div_mod::lemma_div_multiples_vanish(sig * q, unit);
        if e >= 159 {
            lemma_pow2_monotone(9, over);
            assert(sig * q >= 0x80_0000 * 0x200) by (nonlinear_arith)
                requires
                    sig >= 0x80_0000,
                    q >= 0x200,
            ;
        }
    }
}

/// Single precision to an integer: the fraction is cut off. Infinities, NaNs and values
/// beyond 32 bits have no integer.
pub fn f32_to_i32(b: F32Bits) -> (r: Option<i32>)
    ensures
        match r {
            Some(n) => fits_i32(b) && n == truncated_f32(b),
            None => !fits_i32(b),
        },
{
    let exponent: u32 = b / 0x80_0000 % 0x100;
    let sig: u128 = (0x80_0000 + b % 0x80_0000) as u128;
    proof {
        lemma_truncated(b);
    }
    if exponent < 127 {
        return Some(0);
    }
    if exponent >= 159 {
        return None;
    }
    let size: u128 = if exponent < 150 {
        sig / power_of_two((150 - exponent) as u64)
    } else {
        let p: u128 = power_of_two((exponent - 150) as u64);
        proof {
            lemma_pow2_monotone((exponent - 150) as nat, 8);
            assert(pow2(8) == 0x100) by {
                vstd::arithmetic::power2::lemma2_to64();
            }
            assert(sig * p <= 0x100_0000 * 0x100) by (nonlinear_arith)
                requires
                    sig <= 0x100_0000,
                    p <= 0x100,
            ;
        }
        sig * p
    };
    if b < 0x8000_0000 {
        if size <= 0x7FFF_FFFF {
            Some(size as i32)
        } else {
            None
        }
    } else if size <= 0x7FFF_FFFF {
        Some(-(size as i32))
    } else if size == 0x8000_0000 {
        Some(i32::MIN)
    } else {
        None
    }
}

/// Integers below `2^24` survive single precision.
pub proof fn small_integers_survive(n: nat)
    requires
        n < 0x100_0000,
    ensures
        0 <= f32_from_nat(n) < 0x8000_0000,
        truncated_f32(f32_from_nat(n) as u32) == n,
{
    lemma_pow2_pos(149);
    if n == 0 {
        lemma_truncated(0);
    } else {
        let e = floor_log2(n);
        lemma_floor_log2_bounds(n);
        assert(pow2(0) == 1 && pow2(23) == 0x80_0000 && pow2(24) == 0x100_0000) by {
            vstd::arithmetic::power2::lemma2_to64();
        }
        if e > 23 {
            lemma_pow2_monotone(24, e);
        }
        let r = (23 - e) as nat;
        lemma_pow2_adds(e, r);
        lemma_pow2_pos(e);
        lemma_pow2_pos(r);
        let (p, q) = (pow2(e) as int, pow2(r) as int);
        let sig = n * q;
        assert(n * (p * q) == p * sig && n * (p * q) == sig * p + 0) by (nonlinear_arith)
            requires
                sig == n * q,
        ;
        vstd::arithmetic::div_mod::lemma_fundamental_div_mod_converse(
            n * pow2(23) as int,
            p,
            sig,
            0,
        );
        assert(p * q <= sig < 2 * (p * q)) by (nonlinear_arith)
            requires
                sig == n * q,
                p <= n < 2 * p,
                q > 0,
        ;
        let b = f32_from_nat(n) as u32;
        lemma_pattern_f32(b, 0, e as int, sig);
        lemma_truncated(b);
        assert(sig == q * n) by (nonlinear_arith)
            requires
                sig == n * q,
        ;
        vstd::arithmetic::div_mod::lemma_div_multiples_vanish(n as int, q);
        assert(sig / q == n);
        if e < 23 {
            assert(150 - exponent_f32(b) == r);
        } else {
            assert(q == 1);
            assert(sig == n) by (nonlinear_arith)
                requires
                    sig == n * q,
                    q == 1,
            ;
        }
    }
}

// ---------------------------------------------------------------------------
// Laws of the conversions
// ---------------------------------------------------------------------------
/// The fields of the patterns: sign, biased exponent and fraction from the top down, and
/// the value that they stand for.
pub proof fn fields_of_patterns(h: u16, b: u32, w: u64)
    ensures
        h == sign_f16(h) * 0x8000 + exponent_f16(h) * 0x400 + fraction_f16(h),
        b == sign_f32(b) * 0x8000_0000 + exponent_f32(b) * 0x80_0000 + fraction_f32(b),
        w == sign_f64(w) * 0x8000_0000_0000_0000 + exponent_f64(w) * 0x10_0000_0000_0000
            + fraction_f64(w),
        0 <= sign_f16(h) <= 1 && 0 <= exponent_f16(h) < 0x20 && 0 <= fraction_f16(h) < 0x400,
        0 <= sign_f32(b) <= 1 && 0 <= exponent_f32(b) < 0x100 && 0 <= fraction_f32(b) < 0x80_0000,
        0 <= sign_f64(w) <= 1 && 0 <= exponent_f64(w) < 0x800,
        0 <= fraction_f64(w) < 0x10_0000_0000_0000,
        magnitude_f16(h) == (if exponent_f16(h) == 0 {
            fraction_f16(h)
        } else {
            (0x400 + fraction_f16(h)) * pow2((exponent_f16(h) - 1) as nat)
        }),
        magnitude_f32(b) == (if exponent_f32(b) == 0 {
            fraction_f32(b)
        } else {
            (0x80_0000 + fraction_f32(b)) * pow2((exponent_f32(b) - 1) as nat)
        }),
        magnitude_f64(w) == (if exponent_f64(w) == 0 {
            fraction_f64(w)
        } else {
            (0x10_0000_0000_0000 + fraction_f64(w)) * pow2((exponent_f64(w) - 1) as nat)
        }),
{
}

/// The nearest integer to a quotient is at most half away, and even where it is just that.
pub proof fn nearest_within_half(num: nat, den: nat)
    requires
        den > 0,
    ensures
        -(den as int) <= 2 * (nearest(num, den) * den - num) <= den,
        2 * (nearest(num, den) * den - num) == den || 2 * (num - nearest(num, den) * den) == den
            ==> nearest(num, den) % 2 == 0,
{
    let q = (num / den) as int;
    let r = (num % den) as int;
    vstd::arithmetic::div_mod::lemma_fundamental_div_mod(num as int, den as int);
    assert(den * q == q * den) by (nonlinear_arith);
    assert((q + 1) * den == q * den + den) by (nonlinear_arith);
    vstd::arithmetic::div_mod::lemma_mod_bound(num as int, den as int);
}

/// Narrowing rounds to the nearest value. The unit of the last place is that of the value
/// itself, or of the subnormals for a value below them: the result is at most half of it
/// away, and its last bit is clear where it is just that. From halfway past the largest
/// finite value on, the result is infinite. The sign is kept; a NaN stays one.
pub proof fn narrowing_rounds_to_nearest(w: u64)
    ensures
        ({
            let b = f64_narrowed(w) as u32;
            let e = exponent_f64(w);
            let last = if e >= 897 {
                (e + 28) as nat
            } else {
                925
            };
            let d = magnitude_f32(b) * pow2(925) - magnitude_f64(w);
            let beyond = e > 1150 || (e == 1150 && fraction_f64(w) >= 0xF_FFFF_F000_0000);
            &&& 0 <= f64_narrowed(w) <= u32::MAX
            &&& sign_f32(b) == sign_f64(w)
            &&& e < 0x7FF && !beyond ==> {
                &&& exponent_f32(b) < 0xFF
                &&& -(pow2(last) as int) <= 2 * d <= pow2(last)
                &&& 2 * d == pow2(last) || -2 * d == pow2(last) ==> b % 2 == 0
            }
            &&& e < 0x7FF && beyond ==> exponent_f32(b) == 0xFF && fraction_f32(b) == 0
            &&& e == 0x7FF && fraction_f64(w) == 0 ==> exponent_f32(b) == 0xFF && fraction_f32(b)
                == 0
            &&& e == 0x7FF && fraction_f64(w) > 0 ==> exponent_f32(b) == 0xFF && fraction_f32(b)
                >= 0x40_0000 && (fraction_f32(b) - fraction_f64(w) / 0x2000_0000) % 0x40_0000 == 0
        }),
{
    let e = exponent_f64(w);
    let m = fraction_f64(w);
    let b = f64_narrowed(w) as u32;
    let s = sign_f64(w);
    if e < 0x7FF {
        let x = if e == 0 {
            1
        } else {
            e
        };
        let sig = if e == 0 {
            m
        } else {
            0x10_0000_0000_0000 + m
        };
        assert(pow2(0) == 1 && pow2(29) == 0x2000_0000 && pow2(30) == 0x4000_0000) by {
            vstd::arithmetic::power2::lemma2_to64();
        }
        assert(magnitude_f64(w) == sig * pow2((x - 1) as nat)) by {
            assert(sig * 1 == sig) by (nonlinear_arith);
        }
        if x >= 897 {
            let q = nearest(sig as nat, 0x2000_0000) as int;
            nearest_within_half(sig as nat, 0x2000_0000);
            assert(0x80_0000 <= q <= 0x100_0000);
            let rounded = (x - 897) * 0x80_0000 + q;
            if rounded < F32_INFINITY {
                assert(b == s * 0x8000_0000 + rounded);
                let f = (x - 897) as nat;
                assert(magnitude_f32(b) == q * pow2(f)) by {
                    if q < 0x100_0000 {
                        assert(exponent_f32(b) == x - 896);
                        assert(fraction_f32(b) == q - 0x80_0000);
                    } else {
                        assert(exponent_f32(b) == x - 895);
                        assert(fraction_f32(b) == 0);
                        lemma_pow2_unfold(f + 1);
                        assert(0x80_0000 * (2 * pow2(f)) == 0x100_0000 * pow2(f));
                    }
                }
                let low = (x - 1) as nat;
                let p = pow2(low) as int;
                lemma_pow2_adds(f, 925);
                lemma_pow2_adds(29, low);
                let (p1, p2) = (pow2(f) as int, pow2(925) as int);
                assert((q * p1) * p2 == q * (p1 * p2)) by (nonlinear_arith);
                assert(pow2(f + 925) == 0x2000_0000 * p);
                lemma_pow2_pos(low);
                lemma_scaled_rounding(q, 0x2000_0000, sig, p);
                assert(b % 2 == q % 2);
            }
        } else {
            let k = (926 - x) as nat;
            lemma_pow2_monotone(30, k);
            let den = pow2(k);
            let q = nearest(sig as nat, den) as int;
            nearest_within_half(sig as nat, den);
            assert(q <= 0x80_0000) by {
                if q > 0x80_0000 {
                    assert(q * den >= 0x80_0001 * den) by (nonlinear_arith)
                        requires
                            q >= 0x80_0001,
                            den > 0,
                    ;
                    assert(0x80_0001 * den == 0x80_0000 * den + den);
                }
            }
            assert(b == s * 0x8000_0000 + q);
            assert(magnitude_f32(b) == q) by {
                if q == 0x80_0000 {
                    assert(exponent_f32(b) == 1);
                    assert(fraction_f32(b) == 0);
                    assert(magnitude_f32(b) == 0x80_0000 * pow2(0));
                } else {
                    assert(exponent_f32(b) == 0);
                    assert(fraction_f32(b) == q);
                }
            }
            let low = (x - 1) as nat;
            lemma_pow2_adds(k, low);
            let p = pow2(low) as int;
            assert(pow2(925) == den * p);
            lemma_pow2_pos(low);
            lemma_scaled_rounding(q, den as int, sig, p);
        }
    }
}

/// A rounded quotient, scaled.
proof fn lemma_scaled_rounding(q: int, den: int, num: int, p: int)
    requires
        p > 0,
        -den <= 2 * (q * den - num) <= den,
        2 * (q * den - num) == den || 2 * (num - q * den) == den ==> q % 2 == 0,
    ensures
        ({
            let d = q * (den * p) - num * p;
            &&& -(den * p) <= 2 * d <= den * p
            &&& 2 * d == den * p || -2 * d == den * p ==> q % 2 == 0
        }),
{
    let c = q * den - num;
    let d = q * (den * p) - num * p;
    assert(d == c * p) by (nonlinear_arith)
        requires
            d == q * (den * p) - num * p,
            c == q * den - num,
    ;
    assert(-(den * p) <= 2 * (c * p) <= den * p) by (nonlinear_arith)
        requires
            p > 0,
            -den <= 2 * c <= den,
    ;
    if 2 * d == den * p {
        assert(2 * c == den) by (nonlinear_arith)
            requires
                p > 0,
                2 * (c * p) == den * p,
        ;
    }
    if -2 * d == den * p {
        assert(-2 * c == den) by (nonlinear_arith)
            requires
                p > 0,
                -2 * (c * p) == den * p,
        ;
    }
}

/// Cutting the fraction off keeps the sign and goes towards zero by less than one.
pub proof fn cutting_goes_towards_zero(b: u32)
    ensures
        ({
            let n = truncated_f32(b);
            let size = if n < 0 {
                -n
            } else {
                n
            };
            &&& size * pow2(149) <= magnitude_f32(b) < (size + 1) * pow2(149)
            &&& n > 0 ==> b < 0x8000_0000
            &&& n < 0 ==> b >= 0x8000_0000
            &&& fits_i32(b) <==> b as int / 0x80_0000 % 0x100 < 0xFF && -0x8000_0000 <= n
                <= 0x7FFF_FFFF
        }),
{
    let unit = pow2(149) as int;
    lemma_pow2_pos(149);
    let m = magnitude_f32(b);
    assert(m >= 0) by {
        lemma_pow2_pos((exponent_f32(b) - 1) as nat);
        assert((0x80_0000 + fraction_f32(b)) * pow2((exponent_f32(b) - 1) as nat) >= 0)
            by (nonlinear_arith)
            requires
                fraction_f32(b) >= 0,
        ;
    }
    vstd::arithmetic::div_mod::lemma_fundamental_div_mod(m, unit);
    vstd::arithmetic::div_mod::lemma_mod_bound(m, unit);
    vstd::arithmetic::div_mod::lemma_div_pos_is_pos(m, unit);
    let q = m / unit;
    assert(unit * q == q * unit) by (nonlinear_arith);
    assert((q + 1) * unit == q * unit + unit) by (nonlinear_arith);
}

/// The magnitude of a positive pattern, also where its significand carries.
proof fn lemma_pattern_magnitude(b: int, exp: int, sig: int)
    requires
        -126 <= exp <= 126,
        0x80_0000 <= sig <= 0x100_0000,
        b == pattern_f32(exp, sig),
    ensures
        0 < b < 0x7F80_0000,
        magnitude_f32(b as u32) == sig * pow2((exp + 126) as nat),
        exponent_f32(b as u32) < 0xFF,
        sign_f32(b as u32) == 0,
{
    let c = b as u32;
    let f = (exp + 126) as nat;
    if sig < 0x100_0000 {
        assert(exponent_f32(c) == exp + 127);
        assert(fraction_f32(c) == sig - 0x80_0000);
    } else {
        assert(exponent_f32(c) == exp + 128);
        assert(fraction_f32(c) == 0);
        lemma_pow2_unfold(f + 1);
        assert(0x80_0000 * (2 * pow2(f)) == 0x100_0000 * pow2(f));
    }
}

/// Conversion from an integer keeps it up to half a unit of the last place.
proof fn lemma_from_nat_close(n: nat)
    requires
        0 < n <= u64::MAX,
    ensures
        0x3F80_0000 <= f32_from_nat(n) <= 0x5F80_0000,
        ({
            let x = magnitude_f32(f32_from_nat(n) as u32);
            let y = n * pow2(149);
            -y <= 0x100_0000 * (x - y) <= y
        }),
{
    let e = floor_log2(n);
    lemma_floor_log2_bounds(n);
    let p = pow2(e) as int;
    lemma_pow2_pos(e);
    assert(pow2(23) == 0x80_0000 && pow2(63) == 0x8000_0000_0000_0000) by {
        vstd::arithmetic::power2::lemma2_to64();
        vstd::arithmetic::power2::lemma2_to64_rest();
    }
    if e > 63 {
        lemma_pow2_monotone(64, e);
        lemma_pow2_unfold(64);
    }
    let num = n * pow2(23) as int;
    let s = nearest(num as nat, p as nat) as int;
    nearest_within_half(num as nat, p as nat);
    assert(0x80_0000 <= num / p < 0x100_0000) by (nonlinear_arith)
        requires
            p > 0,
            0x80_0000 * p <= num < 0x100_0000 * p,
    ;
    assert(0x80_0000 <= s <= 0x100_0000);
    lemma_pattern_magnitude(f32_from_nat(n), e as int, s);
    let q = pow2(126) as int;
    lemma_pow2_pos(126);
    lemma_pow2_adds(e, 126);
    lemma_pow2_adds(23, 126);
    let x = s * (p * q);
    let y = n * (0x80_0000 * q);
    assert(-y <= 0x100_0000 * (x - y) <= y) by (nonlinear_arith)
        requires
            x == s * (p * q),
            y == n * (0x80_0000 * q),
            q > 0,
            p <= n,
            -p <= 2 * (s * p - n * 0x80_0000) <= p,
    ;
}

/// There is an integer nearest to a square root.
proof fn lemma_root_exists(n: nat)
    ensures
        is_nearest_root(nearest_root(n), n),
    decreases n,
{
    let s: nat = if n == 0 {
        0
    } else {
        lemma_root_exists((n - 1) as nat);
        let t = nearest_root((n - 1) as nat);
        if 4 * n <= (2 * t + 1) * (2 * t + 1) {
            t
        } else {
            t + 1
        }
    };
    if n > 0 {
        let t = nearest_root((n - 1) as nat);
        assert((2 * (t + 1) + 1) * (2 * (t + 1) + 1) >= (2 * t + 1) * (2 * t + 1) + 4)
            by (nonlinear_arith)
            requires
                t >= 0,
        ;
    }
    assert(is_nearest_root(s, n));
    nearest_root_is_unique(s, n);
}

/// The square of a rounded root is close to the value.
proof fn lemma_sqrt_close(b: int)
    requires
        0x3F80_0000 <= b <= 0x5F80_0000,
    ensures
        0x3F80_0000 <= f32_sqrt(b) <= 0x5F80_0000,
        ({
            let r = magnitude_f32(f32_sqrt(b) as u32);
            let y = magnitude_f32(b as u32) * pow2(149);
            -y <= 0x40_0000 * (r * r - y) <= y
        }),
{
    let e = b / 0x80_0000 - 127;
    let sig = b % 0x80_0000 + 0x80_0000;
    assert(0 <= e <= 64);
    lemma_pattern_magnitude(b, e, sig);
    let scaled = if e % 2 == 0 {
        sig * 0x80_0000
    } else {
        sig * 0x100_0000
    };
    let h = e / 2;
    let s = nearest_root(scaled as nat) as int;
    lemma_root_exists(scaled as nat);
    assert((2 * s + 1) * (2 * s + 1) == 4 * (s * s) + 4 * s + 1) by (nonlinear_arith);
    assert((2 * s - 1) * (2 * s - 1) == 4 * (s * s) - 4 * s + 1) by (nonlinear_arith);
    assert(scaled - s <= s * s <= scaled + s);
    assert(0x80_0000 <= s <= 0x100_0000) by {
        if s < 0x80_0000 {
            assert(s * s + s <= 0x7F_FFFF * 0x80_0000) by (nonlinear_arith)
                requires
                    0 <= s <= 0x7F_FFFF,
            ;
        }
        if s > 0x100_0000 {
            assert(s * s - s >= 0x100_0001 * 0x100_0000) by (nonlinear_arith)
                requires
                    s >= 0x100_0001,
            ;
        }
    }
    lemma_pattern_magnitude(f32_sqrt(b), h, s);
    let f = (h + 126) as nat;
    let p = pow2(f) as int;
    lemma_pow2_pos(f);
    let r = s * p;
    lemma_pow2_adds(f, f);
    let sq = p * p;
    assert(r * r == (s * s) * sq) by (nonlinear_arith)
        requires
            r == s * p,
            sq == p * p,
    ;
    let g = (e + 126) as nat;
    lemma_pow2_adds(g, 149);
    assert(pow2(23) == 0x80_0000 && pow2(24) == 0x100_0000) by {
        vstd::arithmetic::power2::lemma2_to64();
    }
    let y = sig * pow2(g) * pow2(149);
    let (p1, p2) = (pow2(g) as int, pow2(149) as int);
    assert(sig * p1 * p2 == sig * (p1 * p2)) by (nonlinear_arith);
    assert(y == scaled * sq) by {
        if e % 2 == 0 {
            lemma_pow2_adds(23, f + f);
            assert(sig * (0x80_0000 * sq) == (sig * 0x80_0000) * sq) by (nonlinear_arith);
        } else {
            lemma_pow2_adds(24, f + f);
            assert(sig * (0x100_0000 * sq) == (sig * 0x100_0000) * sq) by (nonlinear_arith);
        }
    }
    assert(0x40_0000 * s <= scaled) by {
        assert(s * s >= 0x80_0000 * s) by (nonlinear_arith)
            requires
                s >= 0x80_0000,
        ;
    }
    lemma_pow2_pos(f + f);
    assert(-(scaled * sq) <= 0x40_0000 * ((s * s) * sq - scaled * sq) <= scaled * sq)
        by (nonlinear_arith)
        requires
            sq > 0,
            0x40_0000 * s <= scaled,
            scaled - s <= s * s <= scaled + s,
    ;
}

/// A value times its rounded reciprocal is close to one.
proof fn lemma_recip_close(b: int)
    requires
        0x3F80_0000 <= b <= 0x5F80_0000,
    ensures
        0 < f32_recip(b) < 0x7F80_0000,
        ({
            let x = magnitude_f32(b as u32) * magnitude_f32(f32_recip(b) as u32);
            -pow2(298) <= 0x100_0000 * (x - pow2(298)) <= pow2(298)
        }),
{
    let e = b / 0x80_0000 - 127;
    let sig = b % 0x80_0000 + 0x80_0000;
    lemma_pattern_magnitude(b, e, sig);
    let s = nearest(0x8000_0000_0000, sig as nat) as int;
    nearest_within_half(0x8000_0000_0000, sig as nat);
    assert(0x80_0000 <= s <= 0x100_0000) by {
        if s < 0x80_0000 {
            assert(s * sig <= 0x7F_FFFF * sig) by (nonlinear_arith)
                requires
                    s <= 0x7F_FFFF,
                    sig > 0,
            ;
        }
        if s > 0x100_0000 {
            assert(s * sig >= 0x100_0001 * sig) by (nonlinear_arith)
                requires
                    s >= 0x100_0001,
                    sig > 0,
            ;
        }
    }
    lemma_pattern_magnitude(f32_recip(b), -e - 1, s);
    let (f, g) = ((e + 126) as nat, (125 - e) as nat);
    lemma_pow2_adds(f, g);
    lemma_pow2_adds(47, 251);
    assert(pow2(47) == 0x8000_0000_0000) by {
        vstd::arithmetic::power2::lemma2_to64();
        vstd::arithmetic::power2::lemma2_to64_rest();
    }
    lemma_pow2_pos(251);
    let (p, q, u) = (pow2(f) as int, pow2(g) as int, pow2(251) as int);
    assert((sig * p) * (s * q) == (s * sig) * (p * q)) by (nonlinear_arith);
    let c = s * sig;
    assert(-(0x8000_0000_0000 * u) <= 0x100_0000 * (c * u - 0x8000_0000_0000 * u)
        <= 0x8000_0000_0000 * u) by (nonlinear_arith)
        requires
            u > 0,
            -0x100_0000 <= 2 * (c - 0x8000_0000_0000) <= 0x100_0000,
    ;
}

/// The softmax scale of `n` is `1/√n`: its square times `n` is one, up to the rounding of
/// conversion, root and division, together less than a millionth. For zero it is infinite.
pub proof fn softmax_scale_is_inverse_root(n: nat)
    requires
        n <= u64::MAX,
    ensures
        n == 0 ==> softmax_scale_bits(n) == 0x7F80_0000,
        n > 0 ==> {
            let r = magnitude_f32(softmax_scale_bits(n) as u32);
            &&& 0 < softmax_scale_bits(n) < 0x7F80_0000
            &&& -pow2(298) <= 0x10_0000 * (r * r * n - pow2(298)) <= pow2(298)
        },
{
    if n > 0 {
        let x = f32_from_nat(n);
        let y = f32_sqrt(x);
        let z = f32_recip(y);
        lemma_from_nat_close(n);
        lemma_sqrt_close(x);
        lemma_recip_close(y);
        lemma_pow2_pos(149);
        lemma_pow2_adds(149, 149);
        lemma_inverse_root(
            n as int,
            pow2(149) as int,
            magnitude_f32(x as u32),
            magnitude_f32(y as u32),
            magnitude_f32(z as u32),
        );
    }
}

/// From a value, its root and the root's reciprocal, each up to rounding, to the product of
/// the value and the reciprocal's square.
proof fn lemma_inverse_root(n: int, u: int, a: int, s: int, r: int)
    requires
        n > 0,
        u > 0,
        -(n * u) <= 0x100_0000 * (a - n * u) <= n * u,
        -(a * u) <= 0x40_0000 * (s * s - a * u) <= a * u,
        -(u * u) <= 0x100_0000 * (s * r - u * u) <= u * u,
    ensures
        -(u * u) <= 0x10_0000 * (r * r * n - u * u) <= u * u,
{
    let w = u * u;
    let k = n * w;
    let t = s * s;
    let v = s * r;
    let z = r * r * n;
    assert(w > 0) by (nonlinear_arith)
        requires
            w == u * u,
            u > 0,
    ;
    assert(k > 0) by (nonlinear_arith)
        requires
            k == n * w,
            n > 0,
            w > 0,
    ;
    // The square of the root is `n`, up to rounding.
    let au = a * u;
    assert(-k <= 0x100_0000 * (au - k) <= k) by (nonlinear_arith)
        requires
            u > 0,
            w == u * u,
            k == n * w,
            au == a * u,
            -(n * u) <= 0x100_0000 * (a - n * u) <= n * u,
    ;
    assert(0x3F_FFFF * (0xFF_FFFF * k) <= 0x4000_0000_0000 * t <= 0x40_0001 * (0x100_0001 * k));
    // The square of the product is one, up to rounding.
    let vv = v * v;
    let ww = w * w;
    assert(0x100_0000 * v >= 0xFF_FFFF * w && 0x100_0000 * v <= 0x100_0001 * w);
    lemma_square_bounds(v, w);
    // Both together.
    assert(z * t == n * vv) by (nonlinear_arith)
        requires
            z == r * r * n,
            t == s * s,
            v == s * r,
            vv == v * v,
    ;
    assert(k * w == n * ww) by (nonlinear_arith)
        requires
            k == n * w,
            ww == w * w,
    ;
    let nww = n * ww;
    let nvv = n * vv;
    assert(0xFF_FFFF * 0xFF_FFFF * nww <= 0x1_0000_0000_0000 * nvv <= 0x100_0001 * 0x100_0001
        * nww) by (nonlinear_arith)
        requires
            n > 0,
            nww == n * ww,
            nvv == n * vv,
            0xFF_FFFF * 0xFF_FFFF * ww <= 0x1_0000_0000_0000 * vv <= 0x100_0001 * 0x100_0001 * ww,
    ;
    assert(nww > 0) by (nonlinear_arith)
        requires
            nww == k * w,
            k > 0,
            w > 0,
    ;
    assert(t > 0);
    if 0x10_0000 * z > 0x10_0001 * w {
        assert(0x10_0000 * (z * t) > 0x10_0001 * (w * t)) by (nonlinear_arith)
            requires
                t > 0,
                0x10_0000 * z > 0x10_0001 * w,
        ;
        assert(0x4000_0000_0000 * (w * t) >= 0x3F_FFFF * (0xFF_FFFF * nww)) by (nonlinear_arith)
            requires
                w > 0,
                nww == k * w,
                0x3F_FFFF * (0xFF_FFFF * k) <= 0x4000_0000_0000 * t,
        ;
        assert(false);
    }
    if 0x10_0000 * z < 0xF_FFFF * w {
        assert(0x10_0000 * (z * t) < 0xF_FFFF * (w * t)) by (nonlinear_arith)
            requires
                t > 0,
                0x10_0000 * z < 0xF_FFFF * w,
        ;
        assert(0x4000_0000_0000 * (w * t) <= 0x40_0001 * (0x100_0001 * nww)) by (nonlinear_arith)
            requires
                w > 0,
                nww == k * w,
                0x4000_0000_0000 * t <= 0x40_0001 * (0x100_0001 * k),
        ;
        assert(false);
    }
}

/// Bounds of a ratio, squared.
proof fn lemma_square_bounds(v: int, w: int)
    requires
        w > 0,
        0xFF_FFFF * w <= 0x100_0000 * v <= 0x100_0001 * w,
    ensures
        0xFF_FFFF * 0xFF_FFFF * (w * w) <= 0x1_0000_0000_0000 * (v * v) <= 0x100_0001 * 0x100_0001
            * (w * w),
{
    let x = 0x100_0000 * v;
    let lo = 0xFF_FFFF * w;
    let hi = 0x100_0001 * w;
    assert(lo * lo <= x * x <= hi * hi) by (nonlinear_arith)
        requires
            0 <= lo <= x <= hi,
    ;
    assert(x * x == 0x1_0000_0000_0000 * (v * v)) by (nonlinear_arith)
        requires
            x == 0x100_0000 * v,
    ;
    assert(lo * lo == 0xFF_FFFF * 0xFF_FFFF * (w * w)) by (nonlinear_arith)
        requires
            lo == 0xFF_FFFF * w,
    ;
    assert(hi * hi == 0x100_0001 * 0x100_0001 * (w * w)) by (nonlinear_arith)
        requires
            hi == 0x100_0001 * w,
    ;
}

} // verus!
