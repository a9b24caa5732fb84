//! Division that rounds towards negative infinity, with a remainder that is
//! never negative.

use vstd::prelude::*;

verus! {

/// The quotient of the division that rounds towards negative infinity.
pub(crate) fn floor_div(a: i32, b: i32) -> (r: i32)
    requires
        b > 0,
    ensures
        r == a / b,
{
    assert(i32::MIN <= (a as int) / (b as int) <= i32::MAX) by (nonlinear_arith)
        requires
            i32::MIN <= a <= i32::MAX,
            b > 0,
    ;
    a.checked_div_euclid(b).unwrap()
}

/// The remainder of that division, from zero up to the divisor.
pub(crate) fn floor_mod(a: i32, b: i32) -> (r: i32)
    requires
        b > 0,
    ensures
        r == a % b,
        0 <= r < b,
{
    assert(0 <= (a as int) % (b as int) < b) by (nonlinear_arith)
        requires
            b > 0,
    ;
    a.checked_rem_euclid(b).unwrap()
}

} // verus!
