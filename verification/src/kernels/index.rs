//! Row-major indexing.

use vstd::arithmetic::div_mod::{lemma_fundamental_div_mod, lemma_fundamental_div_mod_converse};
use vstd::prelude::*;

verus! {

/// The offset of element `[a, b, c]` of a row-major tensor with trailing extents
/// `eb` and `ec`.
pub open spec fn offset3(a: int, b: int, c: int, eb: int, ec: int) -> int {
    (a * eb + b) * ec + c
}

/// Elements of an `[ea, eb, ec]` tensor lie inside its `ea · eb · ec` cells.
pub proof fn lemma_offset3_bounds(a: int, b: int, c: int, ea: int, eb: int, ec: int)
    requires
        0 <= a < ea,
        0 <= b < eb,
        0 <= c <= ec,
    ensures
        0 <= a * eb + b < ea * eb,
        0 <= (a * eb + b) * ec,
        0 <= offset3(a, b, c, eb, ec) <= ea * eb * ec,
        c < ec ==> offset3(a, b, c, eb, ec) < ea * eb * ec,
{
    let row = a * eb + b;
    assert(0 <= row < ea * eb) by (nonlinear_arith)
        requires
            row == a * eb + b,
            0 <= a < ea,
            0 <= b < eb,
    ;
    assert(0 <= row * ec && row * ec + ec <= (ea * eb) * ec) by (nonlinear_arith)
        requires
            0 <= row < ea * eb,
            0 <= ec,
    ;
}

/// The row offset, with the product expanded.
pub proof fn lemma_row_offset(a: int, b: int, eb: int, ec: int)
    ensures
        (a * eb + b) * ec == a * eb * ec + b * ec,
        (a * eb + b) * ec == a * (eb * ec) + b * ec,
{
    assert((a * eb + b) * ec == a * eb * ec + b * ec) by (nonlinear_arith);
    assert((a * eb + b) * ec == a * (eb * ec) + b * ec) by (nonlinear_arith);
}

/// An offset determines its element.
pub proof fn lemma_offset3_decodes(a: int, b: int, c: int, eb: int, ec: int)
    requires
        0 <= b < eb,
        0 <= c < ec,
    ensures
        offset3(a, b, c, eb, ec) % ec == c,
        offset3(a, b, c, eb, ec) / ec % eb == b,
        offset3(a, b, c, eb, ec) / ec / eb == a,
{
    let row = a * eb + b;
    lemma_fundamental_div_mod_converse(row * ec + c, ec, row, c);
    lemma_fundamental_div_mod_converse(row, eb, a, b);
}

/// Every cell of an `[ea, eb, ec]` tensor is an element.
pub proof fn lemma_offset3_covers(o: int, ea: int, eb: int, ec: int)
    requires
        eb > 0,
        ec > 0,
        0 <= o < ea * eb * ec,
    ensures
        0 <= o % ec < ec,
        0 <= o / ec % eb < eb,
        0 <= o / ec / eb < ea,
        offset3(o / ec / eb, o / ec % eb, o % ec, eb, ec) == o,
{
    lemma_fundamental_div_mod(o, ec);
    lemma_fundamental_div_mod(o / ec, eb);
    let row = o / ec;
    let a = row / eb;
    assert(row * ec == ec * row) by (nonlinear_arith);
    assert(a * eb == eb * a) by (nonlinear_arith);
    assert(0 <= row) by (nonlinear_arith)
        requires
            row == o / ec,
            0 <= o,
            ec > 0,
    ;
    assert(row < ea * eb) by (nonlinear_arith)
        requires
            row * ec <= o < (ea * eb) * ec,
            ec > 0,
    ;
    assert(0 <= a) by (nonlinear_arith)
        requires
            a == row / eb,
            0 <= row,
            eb > 0,
    ;
    assert(a < ea) by (nonlinear_arith)
        requires
            a * eb <= row < ea * eb,
            eb > 0,
    ;
}

} // verus!
