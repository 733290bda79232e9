//! The absolute threshold of hearing of each bin: the breakpoints, one per
//! eighth octave, joined by straight lines over the bins between them.

use vstd::prelude::*;
use vstd::arithmetic::div_mod::lemma_div_is_ordered;
use crate::consts::MAX_ATH;
use crate::fixed::{floor_div, fx_round, lemma_i64_product, min2, round_nearest};
use crate::tables::{is_octave_table, within, LEVEL_LIMIT, MAX_BINS};

verus! {

/// What is added to the threshold so that it is positive: 100 dB.
pub const ATH_LIFT: i64 = 100_000_000;

/// The bin, to the nearest, of the breakpoint after breakpoint `i`.
pub open spec fn breakpoint_bin(tbl: Seq<i64>, i: int) -> int {
    fx_round(tbl[2 * i + 3] as int)
}

/// Some breakpoint lies at bin 1 or above, so that the first bin lies on a
/// line.
pub open spec fn breakpoints_reach(tbl: Seq<i64>) -> bool {
    exists|i: int| 0 <= i < MAX_ATH - 1 && #[trigger] breakpoint_bin(tbl, i) >= 1
}

/// The first bin that the lines before breakpoint `i` leave open.
pub open spec fn ath_cursor(tbl: Seq<i64>, n: int, i: int) -> int
    decreases i,
{
    if i <= 0 {
        0
    } else {
        let c = ath_cursor(tbl, n, i - 1);
        let e = breakpoint_bin(tbl, i - 1);
        if c < e {
            min2(e, n)
        } else {
            c
        }
    }
}

/// Bin `b` lies on the line from breakpoint `i` to the next.
pub open spec fn on_line(tbl: Seq<i64>, n: int, i: int, b: int) -> bool {
    ath_cursor(tbl, n, i) <= b < ath_cursor(tbl, n, i + 1)
}

/// The threshold at bin `b` on the line from breakpoint `i` to the next:
/// the line starts at the first open bin with the level of breakpoint `i`
/// and would reach the level of the next breakpoint at that one's bin.
pub open spec fn line_level(ath: Seq<i64>, tbl: Seq<i64>, n: int, i: int, b: int) -> int {
    let c = ath_cursor(tbl, n, i);
    let e = breakpoint_bin(tbl, i);
    ath[i] + ATH_LIFT + ((b - c) * (ath[i + 1] - ath[i])) / (e - c)
}

/// The threshold at bin `b` as the lines before breakpoint `i` give it,
/// and 0 where none of them covers the bin.
pub open spec fn ath_lines(ath: Seq<i64>, tbl: Seq<i64>, n: int, b: int, i: int) -> int
    decreases i,
{
    if i <= 0 {
        0
    } else if on_line(tbl, n, i - 1, b) {
        line_level(ath, tbl, n, i - 1, b)
    } else {
        ath_lines(ath, tbl, n, b, i - 1)
    }
}

/// The threshold at bin `b`: the bins past the last line repeat the last
/// bin on a line.
pub open spec fn ath_bin(ath: Seq<i64>, tbl: Seq<i64>, n: int, b: int) -> int {
    let end = ath_cursor(tbl, n, MAX_ATH - 1);
    if b < end {
        ath_lines(ath, tbl, n, b, MAX_ATH - 1)
    } else {
        ath_lines(ath, tbl, n, end - 1, MAX_ATH - 1)
    }
}

/// Whether some breakpoint lies at bin 1 or above.
pub fn reaches_first_bin(tbl: &Vec<i64>) -> (ok: bool)
    requires
        is_octave_table(tbl@),
    ensures
        ok == breakpoints_reach(tbl@),
{
    let mut i: usize = 0;
    while i < MAX_ATH - 1
        invariant
            i <= MAX_ATH - 1,
            is_octave_table(tbl@),
            forall|t: int| 0 <= t < i ==> #[trigger] breakpoint_bin(tbl@, t) < 1,
        decreases MAX_ATH - 1 - i,
    {
        if round_nearest(tbl[2 * i + 3]) >= 1 {
            assert(breakpoint_bin(tbl@, i as int) >= 1);
            return true;
        }
        i += 1;
    }
    false
}

/// The threshold of hearing of each of the `n` bins.
pub fn ath_per_bin(ath: &[i64; MAX_ATH], tbl: &Vec<i64>, n: usize) -> (r: Vec<i64>)
    requires
        forall|i: int| 0 <= i < MAX_ATH ==> within(#[trigger] ath[i] as int, LEVEL_LIMIT as int),
        is_octave_table(tbl@),
        n <= MAX_BINS,
        n >= 1 ==> breakpoints_reach(tbl@),
    ensures
        r@.len() == n,
        forall|b: int| 0 <= b < n ==> r@[b] == ath_bin(ath@, tbl@, n as int, b),
{
    let mut r: Vec<i64> = Vec::new();
    let mut i: usize = 0;
    while i < MAX_ATH - 1
        invariant
            i <= MAX_ATH - 1,
            forall|t: int| 0 <= t < MAX_ATH ==> within(#[trigger] ath[t] as int, LEVEL_LIMIT as int),
            is_octave_table(tbl@),
            n <= MAX_BINS,
            r@.len() == ath_cursor(tbl@, n as int, i as int),
            r@.len() <= n,
            n >= 1 && (exists|t: int| 0 <= t < i && #[trigger] breakpoint_bin(tbl@, t) >= 1) ==> r@.len() >= 1,
            forall|b: int| 0 <= b < r@.len() ==> r@[b] == ath_lines(ath@, tbl@, n as int, b, i as int),
            forall|b: int| 0 <= b < r@.len() ==> within(#[trigger] r@[b] as int, 4 * LEVEL_LIMIT),
        decreases MAX_ATH - 1 - i,
    {
        let end: i64 = round_nearest(tbl[2 * i + 3]);
        let from: usize = r.len();
        let base: i64 = ath[i];
        let rise: i64 = ath[i + 1] - base;
        assert(within(ath[i as int] as int, LEVEL_LIMIT as int));
        assert(within(ath[i + 1] as int, LEVEL_LIMIT as int));
        if (from as i64) < end {
            let run: i64 = end - from as i64;
            let mut j: usize = from;
            while (j as i64) < end && j < n
                invariant
                    i < MAX_ATH - 1,
                    n <= MAX_BINS,
                    from <= j <= n,
                    j <= end,
                    from < end,
                    run == end - from,
                    end == breakpoint_bin(tbl@, i as int),
                    from == ath_cursor(tbl@, n as int, i as int),
                    base == ath@[i as int],
                    rise == ath@[i + 1] - ath@[i as int],
                    within(base as int, LEVEL_LIMIT as int),
                    within(rise as int, 2 * LEVEL_LIMIT),
                    r@.len() == j,
                    forall|b: int| 0 <= b < from ==> r@[b] == ath_lines(ath@, tbl@, n as int, b, i as int),
                    forall|b: int| from <= b < j ==> r@[b] == line_level(ath@, tbl@, n as int, i as int, b),
                    forall|b: int| 0 <= b < j ==> within(#[trigger] r@[b] as int, 4 * LEVEL_LIMIT),
                decreases n - j,
            {
                let step: i64 = (j - from) as i64;
                proof {
                    lemma_line_bound(step as int, rise as int, run as int);
                    lemma_i64_product(step as int, rise as int);
                }
                let part: i128 = floor_div((step as i128) * (rise as i128), run as i128);
                r.push(base + ATH_LIFT + part as i64);
                j += 1;
            }
            assert(j == min2(end as int, n as int));
            assert(j == ath_cursor(tbl@, n as int, i + 1));
        }
        assert(r@.len() == ath_cursor(tbl@, n as int, i + 1));
        assert forall|b: int| 0 <= b < r@.len() implies r@[b] == ath_lines(ath@, tbl@, n as int, b, i + 1) by {
            if b >= from {
                assert(on_line(tbl@, n as int, i as int, b));
            } else {
                assert(!on_line(tbl@, n as int, i as int, b));
            }
        }
        i += 1;
    }
    let ghost end = r@.len() as int;
    assert(n >= 1 ==> end >= 1);
    let mut j: usize = r.len();
    while j < n
        invariant
            end <= j <= n,
            end >= 1 || n == 0,
            end == ath_cursor(tbl@, n as int, MAX_ATH - 1),
            r@.len() == j,
            forall|b: int| 0 <= b < end ==> r@[b] == ath_lines(ath@, tbl@, n as int, b, MAX_ATH - 1),
            forall|b: int| end <= b < j ==> r@[b] == ath_lines(ath@, tbl@, n as int, end - 1, MAX_ATH - 1),
        decreases n - j,
    {
        let level: i64 = r[j - 1];
        r.push(level);
        j += 1;
    }
    r
}

/// A step along a line stays within the rise of the line.
proof fn lemma_line_bound(step: int, rise: int, run: int)
    requires
        0 <= step < run,
        within(rise, 2 * LEVEL_LIMIT),
    ensures
        within(step * rise, 2 * LEVEL_LIMIT * run),
        within((step * rise) / run, 2 * LEVEL_LIMIT),
        rise >= 0 ==> 0 <= (step * rise) / run <= rise,
        rise <= 0 ==> rise <= (step * rise) / run <= 0,
{
    let lim = 2 * LEVEL_LIMIT;
    assert(-(lim * run) <= step * rise <= lim * run) by (nonlinear_arith)
        requires
            0 <= step < run,
            -lim <= rise <= lim,
    {
    }
    if rise >= 0 {
        assert(0 <= step * rise <= run * rise) by (nonlinear_arith)
            requires
                0 <= step < run,
                0 <= rise,
        {
        }
        lemma_div_is_ordered(0, step * rise, run);
        lemma_div_is_ordered(step * rise, run * rise, run);
        vstd::arithmetic::div_mod::lemma_div_multiples_vanish(rise, run);
    } else {
        assert(run * rise <= step * rise <= 0) by (nonlinear_arith)
            requires
                0 <= step < run,
                rise <= 0,
        {
        }
        lemma_div_is_ordered(step * rise, 0, run);
        lemma_div_is_ordered(run * rise, step * rise, run);
        vstd::arithmetic::div_mod::lemma_div_multiples_vanish(rise, run);
    }
}

/// The first open bin does not fall from breakpoint to breakpoint, and
/// stays inside the block.
pub proof fn lemma_cursor_rises(tbl: Seq<i64>, n: int, i: int, j: int)
    requires
        0 <= n,
        0 <= i <= j,
    ensures
        0 <= ath_cursor(tbl, n, i) <= ath_cursor(tbl, n, j) <= n,
    decreases j,
{
    if j > i {
        lemma_cursor_rises(tbl, n, i, j - 1);
    } else if i > 0 {
        lemma_cursor_rises(tbl, n, i - 1, j - 1);
    }
}

/// A bin on the line from breakpoint `i` keeps the level of that line while
/// the later lines are drawn.
proof fn lemma_lines_keep(ath: Seq<i64>, tbl: Seq<i64>, n: int, i: int, b: int, k: int)
    requires
        0 <= n,
        0 <= i < k,
        on_line(tbl, n, i, b),
    ensures
        ath_lines(ath, tbl, n, b, k) == line_level(ath, tbl, n, i, b),
    decreases k,
{
    if k > i + 1 {
        lemma_cursor_rises(tbl, n, i + 1, k - 1);
        lemma_lines_keep(ath, tbl, n, i, b, k - 1);
    }
}

/// The threshold of a bin on the line from breakpoint `i` is the level of
/// that line at the bin.
pub proof fn lemma_ath_bin_on_line(ath: Seq<i64>, tbl: Seq<i64>, n: int, i: int, b: int)
    requires
        0 <= n,
        0 <= i < MAX_ATH - 1,
        on_line(tbl, n, i, b),
    ensures
        ath_bin(ath, tbl, n, b) == line_level(ath, tbl, n, i, b),
{
    lemma_cursor_rises(tbl, n, i + 1, MAX_ATH - 1);
    lemma_lines_keep(ath, tbl, n, i, b, MAX_ATH - 1);
}

/// Along the line between two breakpoints the threshold moves one way only,
/// from the level of the first breakpoint towards the level of the second,
/// and never leaves the range between the two.
pub proof fn lemma_ath_monotone_on_line(ath: Seq<i64>, tbl: Seq<i64>, n: int, i: int, b1: int, b2: int)
    requires
        ath.len() == MAX_ATH,
        0 <= n,
        0 <= i < MAX_ATH - 1,
        on_line(tbl, n, i, b1),
        on_line(tbl, n, i, b2),
        b1 <= b2,
    ensures
        ath[i] <= ath[i + 1] ==> ath[i] + ATH_LIFT <= ath_bin(ath, tbl, n, b1) <= ath_bin(ath, tbl, n, b2) <= ath[i
            + 1] + ATH_LIFT,
        ath[i] >= ath[i + 1] ==> ath[i] + ATH_LIFT >= ath_bin(ath, tbl, n, b1) >= ath_bin(ath, tbl, n, b2) >= ath[i
            + 1] + ATH_LIFT,
{
    lemma_ath_bin_on_line(ath, tbl, n, i, b1);
    lemma_ath_bin_on_line(ath, tbl, n, i, b2);
    let c = ath_cursor(tbl, n, i);
    let e = breakpoint_bin(tbl, i);
    let rise = ath[i + 1] - ath[i];
    let run = e - c;
    let s1 = b1 - c;
    let s2 = b2 - c;
    assert(0 <= s1 <= s2 < run);
    if rise >= 0 {
        assert(0 <= s1 * rise <= s2 * rise <= run * rise) by (nonlinear_arith)
            requires
                0 <= s1 <= s2 < run,
                0 <= rise,
        {
        }
        lemma_div_is_ordered(0, s1 * rise, run);
        lemma_div_is_ordered(s1 * rise, s2 * rise, run);
        lemma_div_is_ordered(s2 * rise, run * rise, run);
    }
    if rise <= 0 {
        assert(0 >= s1 * rise >= s2 * rise >= run * rise) by (nonlinear_arith)
            requires
                0 <= s1 <= s2 < run,
                rise <= 0,
        {
        }
        lemma_div_is_ordered(s1 * rise, 0, run);
        lemma_div_is_ordered(s2 * rise, s1 * rise, run);
        lemma_div_is_ordered(run * rise, s2 * rise, run);
    }
    vstd::arithmetic::div_mod::lemma_div_multiples_vanish(rise, run);
}

} // verus!
