//! Fixed-point arithmetic.
//!
//! A real number `x` is held as the integer `floor(x * UNIT)`. Quotients
//! round towards minus infinity, so every operation here is monotone in
//! each argument that it is monotone in over the reals.

use vstd::prelude::*;
use vstd::arithmetic::div_mod::{lemma_fundamental_div_mod, lemma_fundamental_div_mod_converse, lemma_mod_bound};

verus! {

/// Fixed-point one.
pub const UNIT: i64 = 1_000_000;

/// The smaller of two integers.
pub open spec fn min2(a: int, b: int) -> int {
    if a <= b { a } else { b }
}

/// The larger of two integers.
pub open spec fn max2(a: int, b: int) -> int {
    if a >= b { a } else { b }
}

/// `x` brought into `[lo, hi]`; `lo` wins where the bounds cross.
pub open spec fn clamp(x: int, lo: int, hi: int) -> int {
    if x < lo { lo } else if x > hi { hi } else { x }
}

/// Integer part of a fixed-point number (towards minus infinity).
pub open spec fn fx_floor(x: int) -> int {
    x / (UNIT as int)
}

/// Nearest integer to a fixed-point number, halves upwards.
pub open spec fn fx_round(x: int) -> int {
    (x + UNIT / 2) / (UNIT as int)
}

/// `x` brought into the range of `i32`.
pub open spec fn saturate_i32(x: int) -> int {
    clamp(x, i32::MIN as int, i32::MAX as int)
}

/// The smaller of two numbers.
pub fn min_i64(a: i64, b: i64) -> (r: i64)
    ensures
        r == min2(a as int, b as int),
{
    if a <= b { a } else { b }
}

/// The larger of two numbers.
pub fn max_i64(a: i64, b: i64) -> (r: i64)
    ensures
        r == max2(a as int, b as int),
{
    if a >= b { a } else { b }
}

/// Quotient rounded towards minus infinity.
pub fn floor_div(a: i128, b: i128) -> (q: i128)
    requires
        b > 0,
    ensures
        q == a as int / b as int,
{
    if a >= 0 {
        a / b
    } else {
        let t: i128 = a / b;
        let m: i128 = a % b;
        proof {
            lemma_floor_of_truncated(a as int, b as int);
        }
        if m == 0 {
            t
        } else {
            t - 1
        }
    }
}

/// How the quotient towards zero of a negative number and its remainder give
/// the quotient towards minus infinity.
proof fn lemma_floor_of_truncated(a: int, b: int)
    requires
        a < 0,
        b > 0,
    ensures
        (-a) % b == 0 ==> a / b == -((-a) / b),
        (-a) % b != 0 ==> a / b == -((-a) / b) - 1,
        (-a) % b != 0 ==> (-a) / b < -a,
{
    let n = -a;
    let q = n / b;
    let r = n % b;
    lemma_fundamental_div_mod(n, b);
    lemma_mod_bound(n, b);
    assert(n == b * q + r);
    if r == 0 {
        assert(a == (-q) * b + 0) by (nonlinear_arith)
            requires
                n == b * q,
                a == -n,
        {
        }
        lemma_fundamental_div_mod_converse(a, b, -q, 0);
    } else {
        assert(a == (-q - 1) * b + (b - r)) by (nonlinear_arith)
            requires
                n == b * q + r,
                a == -n,
        {
        }
        lemma_fundamental_div_mod_converse(a, b, -q - 1, b - r);
        assert(q < n) by (nonlinear_arith)
            requires
                n == b * q + r,
                r > 0,
                b > 0,
                q >= 0,
                n > 0,
        {
        }
    }
}

/// Integer part of a fixed-point number.
pub fn floor_fixed(x: i64) -> (r: i64)
    ensures
        r == fx_floor(x as int),
{
    let q: i128 = floor_div(x as i128, UNIT as i128);
    q as i64
}

/// Nearest integer to a fixed-point number, halves upwards.
pub fn round_nearest(x: i64) -> (r: i64)
    ensures
        r == fx_round(x as int),
{
    let q: i128 = floor_div(x as i128 + 500_000, UNIT as i128);
    q as i64
}

/// The product of two `i64` fits an `i128` with room to spare.
pub proof fn lemma_i64_product(a: int, b: int)
    requires
        i64::MIN <= a <= i64::MAX,
        i64::MIN <= b <= i64::MAX,
    ensures
        -0x4000_0000_0000_0000_0000_0000_0000_0000 <= a * b <= 0x4000_0000_0000_0000_0000_0000_0000_0000,
{
    assert(-0x4000_0000_0000_0000_0000_0000_0000_0000 <= a * b
        <= 0x4000_0000_0000_0000_0000_0000_0000_0000) by (nonlinear_arith)
        requires
            -0x8000_0000_0000_0000 <= a <= 0x7fff_ffff_ffff_ffff,
            -0x8000_0000_0000_0000 <= b <= 0x7fff_ffff_ffff_ffff,
    {
    }
}

} // verus!
