//! The octave scale in fixed point: octave lines, a whole number of them to
//! the octave, and the weight that depends on the sample rate alone.

use vstd::prelude::*;
use vstd::arithmetic::power2::{
    lemma2_to64, lemma2_to64_rest, lemma_pow2_strictly_increases, lemma_pow2_unfold, pow2,
};
use crate::fixed::{fx_round, round_nearest};
use crate::tables::{within, OCTAVE_LIMIT};

verus! {

/// Largest number of lines to the eighth octave.
pub const MAX_OCTAVE_LINES: i32 = 1_048_576;

/// The first `r` from `r` up with `x < 2^(r + 1/2)`; 31 at most.
pub open spec fn log2_scan(x: int, r: int) -> int
    decreases 31 - r,
{
    if r < 31 && x * x >= pow2((2 * r + 1) as nat) {
        log2_scan(x, r + 1)
    } else {
        r
    }
}

/// The whole number nearest to the binary logarithm of `x`.
pub open spec fn log2_nearest(x: int) -> int {
    log2_scan(x, 0)
}

/// The shift of the octave scale for `lines` lines to the eighth octave:
/// one less than the nearest whole number to the binary logarithm of the
/// lines to the octave.
pub open spec fn octave_shift(lines: int) -> int {
    log2_nearest(8 * lines) - 1
}

/// The octave line of a position on the octave scale, to the nearest, with
/// `2^(shift + 1)` lines to the octave.
pub open spec fn octave_line(oc: int, shift: int) -> int {
    fx_round(oc * pow2((shift + 1) as nat))
}

/// The first octave line: the octave line of the lowest frequency, less the
/// lines of one eighth octave.
pub open spec fn first_octave_line(oc: int, shift: int, lines: int) -> int {
    octave_line(oc, shift) - lines
}

/// The weight of the high-frequency compensation for a sample rate.
pub open spec fn masking_weight(rate: int) -> int {
    if rate < 26000 {
        0
    } else if rate < 38000 {
        940_000
    } else if rate > 46000 {
        1_275_000
    } else {
        1_000_000
    }
}

/// The weight of the high-frequency compensation for a sample rate.
pub fn hf_weight(rate: u32) -> (w: i64)
    ensures
        w == masking_weight(rate as int),
{
    if rate < 26000 {
        0
    } else if rate < 38000 {
        940_000
    } else if rate > 46000 {
        1_275_000
    } else {
        1_000_000
    }
}

/// The shift of the octave scale for `lines` lines to the eighth octave.
pub fn shift_of_lines(lines: i32) -> (shift: i32)
    requires
        1 <= lines <= MAX_OCTAVE_LINES,
    ensures
        shift == octave_shift(lines as int),
        2 <= shift <= 22,
{
    let x: u64 = 8 * (lines as u64);
    assert(64 <= x * x <= 8_388_608 * 8_388_608) by (nonlinear_arith)
        requires
            8 <= x <= 8_388_608,
    {
    }
    let x2: u64 = x * x;
    let mut r: i32 = 0;
    let mut t: u64 = 2;
    proof {
        lemma2_to64();
    }
    while r < 31 && x2 >= t
        invariant
            0 <= r <= 23,
            t == pow2((2 * r + 1) as nat),
            x2 == x * x,
            64 <= x2 <= 8_388_608 * 8_388_608,
            r < 3 ==> x2 >= t,
            log2_scan(x as int, r as int) == log2_scan(x as int, 0),
        decreases 31 - r,
    {
        proof {
            lemma2_to64();
            lemma2_to64_rest();
            // x * x is below 2^47, so the scan stops before step 23
            assert(r < 23);
            lemma_pow2_unfold((2 * r + 2) as nat);
            lemma_pow2_unfold((2 * r + 3) as nat);
            if 2 * r + 3 < 47 {
                lemma_pow2_strictly_increases((2 * r + 3) as nat, 47);
            }
        }
        t = 4 * t;
        r += 1;
    }
    r - 1
}

/// `2^(shift + 1)`: the lines to the octave.
pub fn lines_per_octave(shift: i32) -> (lines: i64)
    requires
        0 <= shift <= 22,
    ensures
        lines == pow2((shift + 1) as nat),
        2 <= lines <= 8_388_608,
{
    let mut lines: i64 = 1;
    let mut e: i32 = 0;
    proof {
        lemma2_to64();
    }
    while e < shift + 1
        invariant
            0 <= e <= shift + 1,
            shift <= 22,
            lines == pow2(e as nat),
            1 <= lines <= 8_388_608,
            e >= 1 ==> lines >= 2,
        decreases shift + 1 - e,
    {
        proof {
            lemma2_to64();
            lemma_pow2_unfold((e + 1) as nat);
            if e + 1 < 23 {
                lemma_pow2_strictly_increases((e + 1) as nat, 23);
            }
        }
        lines = 2 * lines;
        e += 1;
    }
    lines
}

/// The octave line of a position on the octave scale.
pub fn line_of_octave(oc: i64, shift: i32) -> (line: i32)
    requires
        within(oc as int, OCTAVE_LIMIT as int),
        0 <= shift <= 22,
    ensures
        line == octave_line(oc as int, shift as int),
        within(line as int, 268_435_457),
{
    let lines: i64 = lines_per_octave(shift);
    assert(-32_000_000 * 8_388_608 <= oc * lines <= 32_000_000 * 8_388_608) by (nonlinear_arith)
        requires
            -32_000_000 <= oc <= 32_000_000,
            0 <= lines <= 8_388_608,
    {
    }
    let line: i64 = round_nearest(oc * lines);
    line as i32
}

/// The first octave line of a block whose lowest frequency lies at `oc` on
/// the octave scale.
pub fn first_line(oc: i64, shift: i32, lines: i32) -> (line: i32)
    requires
        within(oc as int, OCTAVE_LIMIT as int),
        0 <= shift <= 22,
        1 <= lines <= MAX_OCTAVE_LINES,
    ensures
        line == first_octave_line(oc as int, shift as int, lines as int),
        within(line as int, 269_484_033),
{
    line_of_octave(oc, shift) - lines
}

/// The nearest whole number to a binary logarithm is nearest: `x` lies
/// between `2^(r - 1/2)` and `2^(r + 1/2)`.
pub proof fn lemma_log2_nearest(x: int)
    requires
        1 <= x < 0x8000_0000,
    ensures
        x * x < pow2((2 * log2_nearest(x) + 1) as nat),
        2 * (x * x) >= pow2((2 * log2_nearest(x)) as nat),
        0 <= log2_nearest(x) <= 31,
{
    lemma2_to64();
    assert(1 <= x * x < 0x8000_0000 * 0x8000_0000) by (nonlinear_arith)
        requires
            1 <= x < 0x8000_0000,
    {
    }
    lemma_log2_scan(x, 0);
}

/// The scan from `r` stops at the whole number nearest to the binary
/// logarithm of `x`, where `x` is `2^(r - 1/2)` at least.
proof fn lemma_log2_scan(x: int, r: int)
    requires
        0 <= r <= 31,
        1 <= x * x < 0x4000_0000_0000_0000,
        2 * (x * x) >= pow2((2 * r) as nat),
    ensures
        x * x < pow2((2 * log2_scan(x, r) + 1) as nat),
        2 * (x * x) >= pow2((2 * log2_scan(x, r)) as nat),
        r <= log2_scan(x, r) <= 31,
    decreases 31 - r,
{
    lemma2_to64();
    lemma2_to64_rest();
    if r < 31 && x * x >= pow2((2 * r + 1) as nat) {
        lemma_pow2_unfold((2 * r + 2) as nat);
        lemma_log2_scan(x, r + 1);
    } else if r >= 31 {
        assert(pow2(63) == 0x8000_0000_0000_0000);
    }
}

} // verus!
