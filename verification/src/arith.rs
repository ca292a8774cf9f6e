//! Saturating integer arithmetic used by every cost estimate in the crate.
//!
//! All byte and operation counts clamp at the type's maximum instead of
//! wrapping or panicking, so a huge tensor yields `u64::MAX` rather than a
//! meaningless small number.

use vstd::prelude::*;

verus! {

/// Product of two `u64` values, clamped at `u64::MAX`.
pub open spec fn sat_mul(a: u64, b: u64) -> u64 {
    if a * b > u64::MAX { u64::MAX } else { (a * b) as u64 }
}

/// Sum of two `u64` values, clamped at `u64::MAX`.
pub open spec fn sat_add(a: u64, b: u64) -> u64 {
    if a + b > u64::MAX { u64::MAX } else { (a + b) as u64 }
}

/// Product of two `usize` values, clamped at `usize::MAX`.
pub open spec fn sat_mul_usize(a: usize, b: usize) -> usize {
    if a * b > usize::MAX { usize::MAX } else { (a * b) as usize }
}

/// Sum of two `usize` values, clamped at `usize::MAX`.
pub open spec fn sat_add_usize(a: usize, b: usize) -> usize {
    if a + b > usize::MAX { usize::MAX } else { (a + b) as usize }
}

/// Saturating `u64` multiplication.
pub fn mul_sat(a: u64, b: u64) -> (r: u64)
    ensures
        r == sat_mul(a, b),
{
    match a.checked_mul(b) {
        Some(p) => p,
        None => u64::MAX,
    }
}

/// Saturating `u64` addition.
pub fn add_sat(a: u64, b: u64) -> (r: u64)
    ensures
        r == sat_add(a, b),
{
    match a.checked_add(b) {
        Some(s) => s,
        None => u64::MAX,
    }
}

/// Saturating `usize` multiplication.
pub fn mul_sat_usize(a: usize, b: usize) -> (r: usize)
    ensures
        r == sat_mul_usize(a, b),
{
    match a.checked_mul(b) {
        Some(p) => p,
        None => usize::MAX,
    }
}

/// Saturating `usize` addition.
pub fn add_sat_usize(a: usize, b: usize) -> (r: usize)
    ensures
        r == sat_add_usize(a, b),
{
    match a.checked_add(b) {
        Some(s) => s,
        None => usize::MAX,
    }
}

/// Saturating product of all dimensions of a shape, as a `u64` element
/// count; the empty shape (a scalar) has one element.
pub open spec fn elements(shape: Seq<usize>) -> u64
    decreases shape.len(),
{
    if shape.len() == 0 {
        1
    } else {
        sat_mul(elements(shape.drop_last()), shape.last() as u64)
    }
}

/// A nonnegative integer clamped at `u64::MAX`.
pub open spec fn clip(x: int) -> u64 {
    if x > u64::MAX { u64::MAX } else { x as u64 }
}

/// Multiplying a clamped value saturates like clamping the exact product.
pub proof fn lemma_sat_mul_clip(x: int, c: u64)
    requires
        x >= 0,
    ensures
        sat_mul(clip(x), c) == clip(x * c),
{
    if x > u64::MAX {
        if c >= 1 {
            assert(x * c >= x) by (nonlinear_arith)
                requires
                    x >= 0,
                    c >= 1,
            ;
            assert(u64::MAX * c >= u64::MAX) by (nonlinear_arith)
                requires
                    c >= 1,
            ;
        }
    }
}

/// Multiplying two clamped values saturates like clamping the exact
/// product.
pub proof fn lemma_sat_mul_clip2(x: int, y: int)
    requires
        x >= 0,
        y >= 0,
    ensures
        sat_mul(clip(x), clip(y)) == clip(x * y),
{
    if y <= u64::MAX {
        lemma_sat_mul_clip(x, y as u64);
    } else if x == 0 {
    } else {
        assert(x * y >= y) by (nonlinear_arith)
            requires
                x >= 1,
                y >= 0,
        ;
        if x <= u64::MAX {
            assert(x * u64::MAX >= u64::MAX) by (nonlinear_arith)
                requires
                    x >= 1,
            ;
        } else {
            assert(u64::MAX * u64::MAX >= u64::MAX) by (nonlinear_arith);
        }
    }
}

/// Adding clamped values saturates like clamping the exact sum.
pub proof fn lemma_sat_add_clip(x: int, y: int)
    requires
        x >= 0,
        y >= 0,
    ensures
        sat_add(clip(x), clip(y)) == clip(x + y),
{
}

/// The elements of a shape are its product, clamped.
pub proof fn lemma_elements_clip4(a: usize, b: usize, c: usize, d: usize)
    ensures
        elements(seq![a, b, c, d]) == clip(a * b * c * d),
{
    let s = seq![a, b, c, d];
    assert(s.drop_last() =~= seq![a, b, c]);
    assert(seq![a, b, c].drop_last() =~= seq![a, b]);
    assert(seq![a, b].drop_last() =~= seq![a]);
    assert(seq![a].drop_last() =~= Seq::<usize>::empty());
    reveal_with_fuel(elements, 5);
    assert(elements(seq![a]) == clip(a as int));
    lemma_sat_mul_clip(a as int, b as u64);
    lemma_sat_mul_clip(a * b, c as u64);
    lemma_sat_mul_clip(a * b * c, d as u64);
}

} // verus!
