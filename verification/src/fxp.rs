//! Fixed-point numeric helpers shared by the simulation: integer square root,
//! a sine approximation over fractions of a turn, and an arctangent
//! approximation, each with exact integer-valued specifications.

use vstd::prelude::*;

verus! {

/// Floor of the square root of `x`, as a mathematical definition.
pub open spec fn sqrt_floor(x: nat) -> nat
    decreases x,
{
    if x == 0 {
        0
    } else {
        let r = sqrt_floor((x - 1) as nat);
        if (r + 1) * (r + 1) <= x {
            r + 1
        } else {
            r
        }
    }
}

/// `r` is the floor square root of `x`: it sits between consecutive squares.
pub open spec fn sqrt_brackets(x: nat, r: nat) -> bool {
    r * r <= x && x < (r + 1) * (r + 1)
}

/// `sqrt_floor` brackets its argument between consecutive squares.
pub proof fn lemma_sqrt_floor_brackets(x: nat)
    ensures
        sqrt_brackets(x, sqrt_floor(x)),
    decreases x,
{
    if x == 0 {
        assert(sqrt_brackets(x, sqrt_floor(x))) by (nonlinear_arith)
            requires x == 0 && sqrt_floor(x) == 0;
    } else {
        lemma_sqrt_floor_brackets((x - 1) as nat);
        let r = sqrt_floor((x - 1) as nat);
        assert(r * r <= x - 1);
        assert(x - 1 < (r + 1) * (r + 1));
        if (r + 1) * (r + 1) <= x {
            assert(x < (r + 2) * (r + 2)) by (nonlinear_arith)
                requires x - 1 < (r + 1) * (r + 1);
            assert(sqrt_floor(x) == r + 1);
        } else {
            assert(sqrt_floor(x) == r);
        }
    }
}

/// Any value bracketed between consecutive squares is the floor square root.
pub proof fn lemma_sqrt_floor_unique(x: nat, r: nat)
    requires
        r * r <= x,
        x < (r + 1) * (r + 1),
    ensures
        r == sqrt_floor(x),
{
    lemma_sqrt_floor_brackets(x);
    let s = sqrt_floor(x);
    if r < s {
        assert((r + 1) * (r + 1) <= s * s) by (nonlinear_arith)
            requires r + 1 <= s;
    }
    if s < r {
        assert((s + 1) * (s + 1) <= r * r) by (nonlinear_arith)
            requires s + 1 <= r;
    }
}

/// Integer square root by bisection.
pub fn isqrt_u64(x: u64) -> (r: u64)
    ensures
        r == sqrt_floor(x as nat),
{
    let mut lo: u64 = 0;
    let mut hi: u64 = 0x1_0000_0000;
    while lo + 1 < hi
        invariant
            lo < hi <= 0x1_0000_0000u64,
            lo * lo <= x,
            x < (hi as int) * (hi as int),
        decreases hi - lo,
    {
        let mid = lo + (hi - lo) / 2;
        assert(lo < mid < hi);
        assert(mid * mid < u64::MAX) by (nonlinear_arith)
            requires mid < 0x1_0000_0000u64;
        if mid * mid <= x {
            lo = mid;
        } else {
            hi = mid;
        }
    }
    proof {
        assert(hi == lo + 1);
        lemma_sqrt_floor_unique(x as nat, lo as nat);
    }
    lo
}

/// The product `u * (1_000_000 - 2 * u)` that drives the sine
/// approximation on the first half turn.
pub open spec fn sin_g(u: int) -> int {
    u * (1_000_000 - 2 * u)
}

/// Sine on the first half turn, argument `u` in micro-turns
/// (`0 <= u <= 500_000`), result scaled by 1_000_000. This is the
/// classical rational approximation `16 x (pi - x) / (5 pi^2 - 4 x (pi - x))`
/// rewritten over turns, where every factor of pi cancels.
pub open spec fn sin_half_micro(u: int) -> int {
    32_000_000 * sin_g(u) / (5_000_000_000_000 - 8 * sin_g(u))
}

/// Sine over a full turn, argument in micro-turns (`0 <= a < 1_000_000`),
/// result scaled by 1_000_000: the second half turn mirrors the first.
pub open spec fn sin_turn_micro(a: int) -> int {
    if a < 500_000 {
        sin_half_micro(a)
    } else {
        -sin_half_micro(a - 500_000)
    }
}

/// On the half-turn domain, the driving product stays within
/// `[0, 125_000_000_000]` (its maximum sits at the quarter turn).
proof fn lemma_sin_g_bounds(u: int)
    requires
        0 <= u <= 500_000,
    ensures
        0 <= sin_g(u) <= 125_000_000_000,
{
    assert(0 <= u * (1_000_000 - 2 * u) <= 125_000_000_000) by (nonlinear_arith)
        requires 0 <= u <= 500_000;
}

fn sin_half(u: u64) -> (s: u64)
    requires
        u <= 500_000,
    ensures
        s == sin_half_micro(u as int),
        s <= 1_000_000,
{
    proof {
        lemma_sin_g_bounds(u as int);
    }
    let g: u64 = u * (1_000_000 - 2 * u);
    let num: u64 = 32_000_000 * g;
    let den: u64 = 5_000_000_000_000 - 8 * g;
    let s = num / den;
    proof {
        assert(num <= 1_000_000 * (den as int)) by (nonlinear_arith)
            requires
                num == 32_000_000 * sin_g(u as int),
                den == 5_000_000_000_000 - 8 * sin_g(u as int),
                0 <= sin_g(u as int) <= 125_000_000_000;
        vstd::arithmetic::div_mod::lemma_div_is_ordered(num as int, 1_000_000 * (den as int), den as int);
        vstd::arithmetic::div_mod::lemma_div_multiples_vanish(1_000_000, den as int);
    }
    s
}

proof fn lemma_sin_half_bounds(u: int)
    requires
        0 <= u <= 500_000,
    ensures
        0 <= sin_half_micro(u) <= 1_000_000,
{
    lemma_sin_g_bounds(u);
    let g = sin_g(u);
    let num = 32_000_000 * g;
    let den = 5_000_000_000_000 - 8 * g;
    assert(num <= den * 1_000_000) by (nonlinear_arith)
        requires
            num == 32_000_000 * g,
            den == 5_000_000_000_000 - 8 * g,
            0 <= g <= 125_000_000_000;
    vstd::arithmetic::div_mod::lemma_div_pos_is_pos(num, den);
    vstd::arithmetic::div_mod::lemma_multiply_divide_le(num, den, 1_000_000);
}

/// The sine approximation never leaves the unit band: for any angle within
/// one turn, its value scaled by 1_000_000 lies in `[-1_000_000, 1_000_000]`.
pub proof fn lemma_sin_turn_bounds(a: int)
    requires
        0 <= a < 1_000_000,
    ensures
        -1_000_000 <= sin_turn_micro(a) <= 1_000_000,
{
    if a < 500_000 {
        lemma_sin_half_bounds(a);
    } else {
        lemma_sin_half_bounds(a - 500_000);
    }
}

/// Sine over a full turn in micro-turns, result scaled by 1_000_000.
pub fn sin_turn(a: u64) -> (s: i64)
    requires
        a < 1_000_000,
    ensures
        s == sin_turn_micro(a as int),
        -1_000_000 <= s <= 1_000_000,
{
    if a < 500_000 {
        sin_half(a) as i64
    } else {
        -(sin_half(a - 500_000) as i64)
    }
}

/// Arctangent on `[0, 1]`, argument `a` scaled by 1_000_000, result in
/// micro-radians: the polynomial approximation `(pi/4) a + 0.273 a (1 - a)`.
pub open spec fn atan_unit_micro(a: int) -> int {
    785_398 * a / 1_000_000 + 273_000 * (a * (1_000_000 - a)) / 1_000_000_000_000
}

/// Arctangent magnitude for a non-negative argument scaled by 1_000_000;
/// arguments above 1 go through the reciprocal identity
/// `atan(x) = pi/2 - atan(1/x)`.
pub open spec fn atan_mag_micro(a: int) -> int {
    if a <= 1_000_000 {
        atan_unit_micro(a)
    } else {
        1_570_796 - atan_unit_micro(1_000_000_000_000int / a)
    }
}

/// Arctangent over the whole line, argument scaled by 1_000_000, result in
/// micro-radians; odd symmetry around zero.
pub open spec fn atan_micro(x: int) -> int {
    if x >= 0 {
        atan_mag_micro(x)
    } else {
        -atan_mag_micro(-x)
    }
}

fn atan_unit(a: u64) -> (r: u64)
    requires
        a <= 1_000_000,
    ensures
        r == atan_unit_micro(a as int),
        r <= 853_648,
{
    proof {
        assert(0 <= (a as int) * (1_000_000 - a as int) <= 250_000_000_000) by (nonlinear_arith)
            requires 0 <= a <= 1_000_000;
    }
    let p: u64 = a * (1_000_000 - a);
    let t1: u64 = 785_398 * a / 1_000_000;
    let t2: u64 = 273_000 * p / 1_000_000_000_000;
    proof {
        vstd::arithmetic::div_mod::lemma_multiply_divide_le(
            785_398 * (a as int), 1_000_000, 785_398);
        vstd::arithmetic::div_mod::lemma_multiply_divide_le(
            273_000 * (p as int), 1_000_000_000_000, 68_250);
    }
    t1 + t2
}

fn atan_mag(a: u128) -> (r: u64)
    ensures
        r == atan_mag_micro(a as int),
        r <= 1_570_796,
{
    if a <= 1_000_000 {
        atan_unit(a as u64)
    } else {
        let inv: u128 = 1_000_000_000_000 / a;
        proof {
            vstd::arithmetic::div_mod::lemma_multiply_divide_lt(
                1_000_000_000_000, a as int, 1_000_000);
        }
        1_570_796 - atan_unit(inv as u64)
    }
}

/// Arctangent of `x` (scaled by 1_000_000), in micro-radians. The result
/// always lies strictly inside a quarter turn of either sign.
pub fn atan_fixed(x: i128) -> (r: i64)
    requires
        x != i128::MIN,
    ensures
        r == atan_micro(x as int),
        -1_570_796 <= r <= 1_570_796,
{
    if x >= 0 {
        atan_mag(x as u128) as i64
    } else {
        -(atan_mag((-x) as u128) as i64)
    }
}

} // verus!
