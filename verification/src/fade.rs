//! Equal-power crossfade weights in fixed point. The dry and wet squared
//! gains are built so that they sum to exactly one unit, and the gains are
//! their integer square roots, so the blend preserves power up to the
//! rounding of the square root. The cosine of the blend curve is the
//! classical rational approximation `cos(pi*x) ~ (1 - 4x^2) / (1 + x^2)`
//! on `[0, 1/2]`, extended to `[0, 1]` by antisymmetry; it is exact at the
//! endpoints and at the midpoint.

use vstd::prelude::*;
use crate::UNIT;
use vstd::arithmetic::div_mod::{
    lemma_div_is_ordered,
    lemma_div_multiples_vanish,
    lemma_div_pos_is_pos,
    lemma_div_of0,
};
use vstd::arithmetic::mul::lemma_mul_is_commutative;

verus! {

/// A blend position confined to `[0, UNIT]`.
pub open spec fn clamp_unit(x: int) -> int {
    if x < 0 {
        0
    } else if x > UNIT {
        UNIT as int
    } else {
        x
    }
}

/// The rational cosine approximation on the first half of the curve,
/// scaled by `UNIT`: for `x` in `[0, UNIT/2]` this is
/// `UNIT * (UNIT^2 - 4x^2) / (UNIT^2 + x^2)`.
pub open spec fn half_curve(x: int) -> int {
    (1_000_000 * (1_000_000_000_000 - 4 * (x * x))) / (1_000_000_000_000 + x * x)
}

/// Fixed-point `cos(pi * x / UNIT)`, scaled by `UNIT`, for a clamped
/// blend position: the first half of the curve mirrored antisymmetrically.
pub open spec fn cos_pi(x: int) -> int {
    let c = clamp_unit(x);
    if c <= UNIT / 2 {
        half_curve(c)
    } else {
        -half_curve(UNIT - c)
    }
}

/// The squared dry gain, `(UNIT + cos_pi(x)) / 2`.
pub open spec fn dry_power(x: int) -> int {
    (UNIT + cos_pi(x)) / 2
}

/// The squared wet gain, the exact complement of the squared dry gain.
pub open spec fn wet_power(x: int) -> int {
    UNIT - dry_power(x)
}

/// The integer square root (floor of the real square root).
pub open spec fn sqrt_floor(x: nat) -> nat
    decreases x,
{
    if x == 0 {
        0
    } else {
        let p = sqrt_floor((x - 1) as nat);
        if (p + 1) * (p + 1) <= x {
            p + 1
        } else {
            p
        }
    }
}

/// The dry gain: the square root of the squared dry gain, rescaled so a
/// full-power gain is `UNIT`.
pub open spec fn dry_gain(x: int) -> int {
    sqrt_floor((dry_power(x) * 1_000_000) as nat) as int
}

/// The wet gain, likewise.
pub open spec fn wet_gain(x: int) -> int {
    sqrt_floor((wet_power(x) * 1_000_000) as nat) as int
}

/// `sqrt_floor` is the floor of the square root.
pub proof fn lemma_sqrt_floor_bounds(x: nat)
    ensures
        sqrt_floor(x) * sqrt_floor(x) <= x,
        x < (sqrt_floor(x) + 1) * (sqrt_floor(x) + 1),
    decreases x,
{
    if x > 0 {
        lemma_sqrt_floor_bounds((x - 1) as nat);
        let p = sqrt_floor((x - 1) as nat);
        assert(p * p <= x - 1);
        assert(x - 1 < (p + 1) * (p + 1));
        if (p + 1) * (p + 1) <= x {
            assert(sqrt_floor(x) == p + 1);
            assert((p + 1) * (p + 1) < (p + 2) * (p + 2)) by (nonlinear_arith);
            assert(sqrt_floor(x) * sqrt_floor(x) <= x);
            assert(x < (sqrt_floor(x) + 1) * (sqrt_floor(x) + 1));
        } else {
            assert(sqrt_floor(x) == p);
            assert(sqrt_floor(x) * sqrt_floor(x) <= x);
            assert(x < (sqrt_floor(x) + 1) * (sqrt_floor(x) + 1));
        }
    } else {
        let s = sqrt_floor(x);
        assert(s == 0);
        assert(s * s <= x && x < (s + 1) * (s + 1)) by (nonlinear_arith)
            requires
                s == 0,
                x == 0,
        ;
    }
}

/// Any value bracketed like a floor square root is the floor square root.
pub proof fn lemma_sqrt_floor_unique(x: nat, r: nat)
    requires
        r * r <= x,
        x < (r + 1) * (r + 1),
    ensures
        r == sqrt_floor(x),
{
    let s = sqrt_floor(x);
    lemma_sqrt_floor_bounds(x);
    if r < s {
        assert((r + 1) * (r + 1) <= s * s) by (nonlinear_arith)
            requires r + 1 <= s,
        ;
    }
    if s < r {
        assert((s + 1) * (s + 1) <= r * r) by (nonlinear_arith)
            requires s + 1 <= r,
        ;
    }
}

/// The cosine approximation on the half curve stays within `[0, UNIT]`,
/// with the exact values at the ends.
proof fn lemma_half_curve_bounds(x: int)
    requires
        0 <= x <= UNIT / 2,
    ensures
        0 <= half_curve(x) <= UNIT,
        x == 0 ==> half_curve(x) == UNIT,
        x == UNIT / 2 ==> half_curve(x) == 0,
{
    let t = x * x;
    assert(0 <= t <= 250_000_000_000) by (nonlinear_arith)
        requires
            0 <= x <= 500_000,
            t == x * x,
    ;
    let num = 1_000_000 * (1_000_000_000_000 - 4 * t);
    let den = 1_000_000_000_000 + t;
    lemma_div_pos_is_pos(num, den);
    lemma_div_is_ordered(num, 1_000_000 * den, den);
    lemma_mul_is_commutative(1_000_000, den);
    lemma_div_multiples_vanish(1_000_000, den);
    if x == 0 {
        assert(t == 0) by (nonlinear_arith)
            requires
                x == 0,
                t == x * x,
        ;
    }
    if x == UNIT / 2 {
        assert(t == 250_000_000_000) by (nonlinear_arith)
            requires
                x == 500_000,
                t == x * x,
        ;
        lemma_div_of0(den);
    }
}

/// The fixed-point cosine stays within `[-UNIT, UNIT]` and is exact at
/// the ends of the blend range.
pub proof fn lemma_cos_pi_bounds(x: int)
    ensures
        -UNIT <= cos_pi(x) <= UNIT,
        x <= 0 ==> cos_pi(x) == UNIT,
        x >= UNIT ==> cos_pi(x) == -UNIT,
{
    let c = clamp_unit(x);
    if c <= UNIT / 2 {
        lemma_half_curve_bounds(c);
    } else {
        lemma_half_curve_bounds(UNIT - c);
    }
}

/// The squared gains are exact complements: they always sum to `UNIT`.
pub proof fn lemma_power_split(x: int)
    ensures
        dry_power(x) + wet_power(x) == UNIT,
        0 <= dry_power(x) <= UNIT,
        0 <= wet_power(x) <= UNIT,
        x <= 0 ==> dry_power(x) == UNIT,
        x >= UNIT ==> dry_power(x) == 0,
{
    lemma_cos_pi_bounds(x);
    lemma_div_pos_is_pos(UNIT + cos_pi(x), 2);
    lemma_div_is_ordered(UNIT + cos_pi(x), 2 * (UNIT as int), 2);
    lemma_div_multiples_vanish(UNIT as int, 2);
    lemma_div_of0(2);
}

/// The integer square root, by bisection.
pub fn isqrt(x: u64) -> (r: u64)
    requires
        x <= 1_000_000_000_000,
    ensures
        r == sqrt_floor(x as nat),
        r <= 1_000_000,
{
    let mut lo: u64 = 0;
    let mut hi: u64 = 1_000_001;
    proof {
        assert(0u64 * 0u64 <= x && x < 1_000_001 * 1_000_001) by (nonlinear_arith)
            requires
                x <= 1_000_000_000_000u64,
        ;
    }
    while lo + 1 < hi
        invariant
            lo < hi <= 1_000_001,
            lo * lo <= x,
            x < hi * hi,
        decreases hi - lo,
    {
        let mid: u64 = lo + (hi - lo) / 2;
        assert(lo < mid < hi) by (nonlinear_arith)
            requires
                mid == lo + (hi - lo) / 2,
                lo + 1 < hi,
        ;
        assert(mid * mid <= 1_000_000_000_002_000_000) by (nonlinear_arith)
            requires
                mid <= 1_000_001u64,
        ;
        let sq: u64 = mid * mid;
        if sq <= x {
            lo = mid;
        } else {
            hi = mid;
        }
    }
    proof {
        lemma_sqrt_floor_unique(x as nat, lo as nat);
        assert(lo <= 1_000_000) by (nonlinear_arith)
            requires
                lo * lo <= 1_000_000_000_000u64,
        ;
    }
    lo
}

/// The rational cosine approximation on `[0, UNIT/2]`, as executable code.
fn half_curve_value(x: i64) -> (r: i64)
    requires
        0 <= x <= 500_000,
    ensures
        r == half_curve(x as int),
        0 <= r <= UNIT,
{
    proof {
        lemma_half_curve_bounds(x as int);
    }
    let xs: u64 = x as u64;
    assert(xs * xs <= 250_000_000_000) by (nonlinear_arith)
        requires
            xs <= 500_000u64,
    ;
    let s: u64 = xs * xs;
    let num: u64 = 1_000_000u64 * (1_000_000_000_000u64 - 4 * s);
    let den: u64 = 1_000_000_000_000u64 + s;
    let q: u64 = num / den;
    q as i64
}

/// Fixed-point `cos(pi * x / UNIT)` for a blend position, clamping the
/// position to `[0, UNIT]` first.
pub fn cos_pi_unit(position: i64) -> (r: i64)
    ensures
        r == cos_pi(position as int),
        -UNIT <= r <= UNIT,
{
    proof {
        lemma_cos_pi_bounds(position as int);
    }
    let c: i64 = if position < 0 {
        0
    } else if position > UNIT {
        UNIT
    } else {
        position
    };
    if c <= 500_000 {
        half_curve_value(c)
    } else {
        -half_curve_value(UNIT - c)
    }
}

/// Equal-power crossfade weights for a blend position: the dry gain and
/// the wet gain, each in `[0, UNIT]`. Their squares sum to `UNIT^2` up to
/// the rounding of the integer square root, and the ends of the blend
/// range give the pure-dry and pure-wet weights exactly.
pub fn equal_power_fade(position: i64) -> (r: (i64, i64))
    ensures
        r.0 == dry_gain(position as int),
        r.1 == wet_gain(position as int),
        0 <= r.0 <= UNIT,
        0 <= r.1 <= UNIT,
        r.0 * r.0 + r.1 * r.1 <= 1_000_000_000_000,
        1_000_000_000_000 - 4_000_002 < r.0 * r.0 + r.1 * r.1,
        position <= 0 ==> r.0 == UNIT && r.1 == 0,
        position >= UNIT ==> r.0 == 0 && r.1 == UNIT,
{
    proof {
        lemma_power_split(position as int);
    }
    let c: i64 = cos_pi_unit(position);
    let dry_sq: u64 = ((UNIT + c) as u64) / 2;
    let wet_sq: u64 = 1_000_000u64 - dry_sq;
    let dry: u64 = isqrt(dry_sq * 1_000_000);
    let wet: u64 = isqrt(wet_sq * 1_000_000);
    proof {
        let dp = dry_power(position as int);
        let wp = wet_power(position as int);
        lemma_sqrt_floor_bounds((dp * 1_000_000) as nat);
        lemma_sqrt_floor_bounds((wp * 1_000_000) as nat);
        let d = dry as int;
        let w = wet as int;
        assert(d * d > dp * 1_000_000 - 2 * 1_000_000 - 1) by (nonlinear_arith)
            requires
                d * d <= dp * 1_000_000,
                dp * 1_000_000 < (d + 1) * (d + 1),
                0 <= d <= 1_000_000,
        ;
        assert(w * w > wp * 1_000_000 - 2 * 1_000_000 - 1) by (nonlinear_arith)
            requires
                w * w <= wp * 1_000_000,
                wp * 1_000_000 < (w + 1) * (w + 1),
                0 <= w <= 1_000_000,
        ;
        if position <= 0 {
            assert(1_000_000 * 1_000_000 <= 1_000_000_000_000
                && 1_000_000_000_000 < (1_000_000 + 1) * (1_000_000 + 1)) by (nonlinear_arith);
            lemma_sqrt_floor_unique(1_000_000_000_000nat, 1_000_000nat);
            assert(sqrt_floor(0nat) == 0);
        }
        if position >= UNIT {
            assert(1_000_000 * 1_000_000 <= 1_000_000_000_000
                && 1_000_000_000_000 < (1_000_000 + 1) * (1_000_000 + 1)) by (nonlinear_arith);
            lemma_sqrt_floor_unique(1_000_000_000_000nat, 1_000_000nat);
            assert(sqrt_floor(0nat) == 0);
        }
    }
    (dry as i64, wet as i64)
}

} // verus!
