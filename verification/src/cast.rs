//! Truncating integer conversions.
//!
//! Launch dimensions and kernel arguments are 32-bit; sizes are `usize`. A
//! conversion keeps the low 32 bits.

use vstd::prelude::*;

verus! {

/// The low 32 bits of `n`, read as an unsigned number.
pub open spec fn low_u32(n: int) -> int {
    n % 0x1_0000_0000
}

/// The low 32 bits of `n`, read as a two's complement number.
pub open spec fn low_i32(n: int) -> int {
    let m = n % 0x1_0000_0000;
    if m < 0x8000_0000 {
        m
    } else {
        m - 0x1_0000_0000
    }
}

/// `n as u32`.
pub fn to_u32(n: usize) -> (r: u32)
    ensures
        r == low_u32(n as int),
        n <= u32::MAX ==> r == n,
{
    let m: u64 = n as u64;
    assert(m as u32 == m % 0x1_0000_0000) by (bit_vector);
    m as u32
}

/// `n as i32`.
pub fn to_i32(n: usize) -> (r: i32)
    ensures
        r == low_i32(n as int),
        n <= i32::MAX ==> r == n,
{
    let low: u32 = to_u32(n);
    assert(low < 0x8000_0000 ==> low as i32 == low) by (bit_vector);
    assert(low >= 0x8000_0000 ==> low as i32 == low - 0x1_0000_0000) by (bit_vector);
    low as i32
}

/// `n` widened to the word size with its sign, read as an unsigned number.
pub open spec fn sign_extended(n: i32) -> int {
    if n >= 0 {
        n as int
    } else {
        usize::MAX + 1 + n
    }
}

/// `n as usize`.
pub fn i32_to_usize(n: i32) -> (r: usize)
    ensures
        r == sign_extended(n),
        n != 0 ==> r != 0,
{
    if n >= 0 {
        n as usize
    } else {
        let below: i32 = -(n + 1);
        usize::MAX - below as usize
    }
}

/// A conversion changes a number by a multiple of the target's size, into its range.
pub proof fn conversions_are_congruent(n: int, k: i32)
    ensures
        0 <= low_u32(n) <= u32::MAX,
        (n - low_u32(n)) % 0x1_0000_0000 == 0,
        i32::MIN <= low_i32(n) <= i32::MAX,
        (n - low_i32(n)) % 0x1_0000_0000 == 0,
        0 <= sign_extended(k) <= usize::MAX,
        sign_extended(k) == k || sign_extended(k) == k + usize::MAX + 1,
{
}

} // verus!
