//! Small integer helpers shared by the components: division truncating
//! toward zero (the rounding the signal path uses) and saturation to the
//! sample range.

use vstd::prelude::*;
use vstd::arithmetic::div_mod::{lemma_div_pos_is_pos, lemma_div_nonincreasing};

verus! {

/// Quotient of `a` by `b` rounded toward zero, for `b >= 1`.
pub open spec fn div_trunc(a: int, b: int) -> int {
    if a >= 0 {
        a / b
    } else {
        -((-a) / b)
    }
}

/// Saturation of an arbitrary integer to the 32-bit sample range.
pub open spec fn clamp_i32(x: int) -> i32 {
    if x > i32::MAX {
        i32::MAX
    } else if x < i32::MIN {
        i32::MIN
    } else {
        x as i32
    }
}

/// Truncating division never moves a value away from zero, and dividing
/// by one is the identity.
pub proof fn lemma_div_trunc_bounds(a: int, b: int)
    requires
        b >= 1,
    ensures
        a >= 0 ==> 0 <= div_trunc(a, b) <= a,
        a <= 0 ==> a <= div_trunc(a, b) <= 0,
        b == 1 ==> div_trunc(a, b) == a,
{
    if a >= 0 {
        lemma_div_pos_is_pos(a, b);
        lemma_div_nonincreasing(a, b);
        if b == 1 {
            assert(a / 1 == a);
        }
    } else {
        lemma_div_pos_is_pos(-a, b);
        lemma_div_nonincreasing(-a, b);
        if b == 1 {
            assert((-a) / 1 == -a);
        }
    }
}

/// Division of a signed value by a positive divisor, rounding toward zero.
pub fn div_i64(a: i64, b: u64) -> (r: i64)
    requires
        b >= 1,
        a > i64::MIN,
    ensures
        r == div_trunc(a as int, b as int),
{
    proof {
        lemma_div_trunc_bounds(a as int, b as int);
    }
    if a >= 0 {
        let q: u64 = (a as u64) / b;
        q as i64
    } else {
        let m: u64 = (-a) as u64;
        let q: u64 = m / b;
        -(q as i64)
    }
}

} // verus!
