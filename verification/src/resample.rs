//! From working curves to tone curves: each curve is rendered into the bins
//! of the block, the lowest level winning in each bin, and read back at the
//! offsets of the window.

use vstd::prelude::*;
use vstd::arithmetic::power2::{lemma_pow2_unfold, pow2};
use crate::consts::{EHMER_MAX, EHMER_OFFSET, P_BANDS, P_LEVELS, TONE_ROW};
use crate::fixed::{clamp, floor_fixed, fx_floor, max2, min2, min_i64};
use crate::shaping::{is_curve_table, levels_descend, LEVEL_CEILING};
use crate::tables::{is_octave_table, table_view, MAX_BINS, OCTAVE_ORIGIN, OCTAVE_STEPS};

verus! {

/// The level of an offset that lies outside the block: -999 dB.
pub const LEVEL_FLOOR: i64 = -999_000_000;

/// The level that an offset must exceed to count as masked at all: -200 dB.
pub const FENCE_LEVEL: i64 = -200_000_000;

/// The bin that holds sixteenth-octave step `s`.
pub open spec fn step_bin(tbl: Seq<i64>, s: int) -> int {
    fx_floor(tbl[s] as int)
}

/// First bin of offset `j` of source band `k`: a sixteenth octave below the
/// offset, kept inside the block.
pub open spec fn lo_bin(tbl: Seq<i64>, n: int, k: int, j: int) -> int {
    clamp(step_bin(tbl, 2 * j + 8 * k), 0, n)
}

/// One past the last bin of offset `j` of source band `k`: a sixteenth
/// octave above the offset, kept inside the block.
pub open spec fn hi_bin(tbl: Seq<i64>, n: int, k: int, j: int) -> int {
    clamp(step_bin(tbl, 2 * j + 8 * k + 2) + 1, 0, n)
}

/// The first bin that the offsets before `j` of source band `k` have not
/// written.
pub open spec fn cursor(tbl: Seq<i64>, n: int, k: int, j: int) -> int
    decreases j,
{
    if j <= 0 {
        0
    } else {
        max2(min2(cursor(tbl, n, k, j - 1), lo_bin(tbl, n, k, j - 1)), hi_bin(tbl, n, k, j - 1))
    }
}

/// Offset `j` of source band `k` is written into bin `b`.
pub open spec fn covers(tbl: Seq<i64>, n: int, k: int, j: int, b: int) -> bool {
    min2(cursor(tbl, n, k, j), lo_bin(tbl, n, k, j)) <= b < hi_bin(tbl, n, k, j)
}

/// Bin `b`, which held `prev`, after the offsets before `j` of `curve`,
/// the curve of source band `k`, were rendered: the lowest of `prev` and the
/// levels of the offsets that cover the bin.
pub open spec fn splat_upto(curve: Seq<i64>, tbl: Seq<i64>, n: int, k: int, prev: int, b: int, j: int) -> int
    decreases j,
{
    if j <= 0 {
        prev
    } else {
        let p = splat_upto(curve, tbl, n, k, prev, b, j - 1);
        if covers(tbl, n, k, j - 1, b) {
            min2(p, curve[j - 1] as int)
        } else {
            p
        }
    }
}

/// Bin `b`, which held `prev`, after all of `curve` was rendered: the bins
/// above the last offset take the level of the last offset.
pub open spec fn splat(curve: Seq<i64>, tbl: Seq<i64>, n: int, k: int, prev: int, b: int) -> int {
    let p = splat_upto(curve, tbl, n, k, prev, b, EHMER_MAX as int);
    if b >= cursor(tbl, n, k, EHMER_MAX as int) {
        min2(p, curve[EHMER_MAX - 1] as int)
    } else {
        p
    }
}

/// The frequency `num / den`, in units of 62.5 Hz, lies `h` half octaves or
/// more above 62.5 Hz.
pub open spec fn reaches_half_octave(num: int, den: int, h: int) -> bool {
    num * num >= pow2(h as nat) * (den * den)
}

/// The frequency `num / den`, in units of 62.5 Hz, lies `h` half octaves or
/// less above 62.5 Hz.
pub open spec fn within_half_octave(num: int, den: int, h: int) -> bool {
    num * num <= pow2(h as nat) * (den * den)
}

/// The last of the half octaves from `h` up to `P_BANDS` that `num / den`
/// reaches without a gap.
pub open spec fn hi_scan(num: int, den: int, h: int) -> int
    decreases P_BANDS - h,
{
    if h < P_BANDS && reaches_half_octave(num, den, h + 1) {
        hi_scan(num, den, h + 1)
    } else {
        h
    }
}

/// The first of the half octaves from `h` up that `num / den` lies within,
/// and `limit` if there is none below it.
pub open spec fn lo_scan(num: int, den: int, limit: int, h: int) -> int
    decreases limit - h,
{
    if h < limit && !within_half_octave(num, den, h) {
        lo_scan(num, den, limit, h + 1)
    } else {
        h
    }
}

/// The bin that holds the center frequency of `band`.
pub open spec fn band_bin(tbl: Seq<i64>, band: int) -> int {
    step_bin(tbl, 8 * band + OCTAVE_ORIGIN)
}

/// First source band of `band`: the half octave, rounded up, of the
/// frequency 1 Hz above the lower edge of the band's bin; `band` at most.
pub open spec fn lo_curve(tbl: Seq<i64>, n: int, rate: int, band: int) -> int {
    lo_scan(band_bin(tbl, band) * rate + 2 * n, 125 * n, band, 0)
}

/// One past the last source band of `band`: the half octave, rounded down,
/// of the upper edge of the band's bin; `P_BANDS` at most.
pub open spec fn hi_curve(tbl: Seq<i64>, n: int, rate: int, band: int) -> int {
    hi_scan((band_bin(tbl, band) + 1) * rate, 125 * n, 0)
}

/// Bin `b` after the curves of `level` of the source bands from `lo` up to
/// `kk` were rendered into an empty block.
pub open spec fn composite_upto(
    work: Seq<Seq<Seq<i64>>>,
    tbl: Seq<i64>,
    n: int,
    level: int,
    b: int,
    lo: int,
    kk: int,
) -> int
    decreases kk - lo,
{
    if kk <= lo {
        LEVEL_CEILING as int
    } else {
        splat(work[kk - 1][level], tbl, n, kk - 1, composite_upto(work, tbl, n, level, b, lo, kk - 1), b)
    }
}

/// Bin `b` of the composite of `band` at `level`: its source bands, and the
/// band above it where there is one.
pub open spec fn composite(
    work: Seq<Seq<Seq<i64>>>,
    tbl: Seq<i64>,
    n: int,
    rate: int,
    band: int,
    level: int,
    b: int,
) -> int {
    let c = composite_upto(work, tbl, n, level, b, lo_curve(tbl, n, rate, band), hi_curve(tbl, n, rate, band));
    if band + 1 < P_BANDS {
        splat(work[band + 1][level], tbl, n, band + 1, c, b)
    } else {
        c
    }
}

/// The bin that holds offset `j` of `band`.
pub open spec fn center_bin(tbl: Seq<i64>, band: int, j: int) -> int {
    step_bin(tbl, 2 * j + 8 * band + 1)
}

/// The tone curve of `band` at `level`, at offset `j`: the composite at the
/// offset's bin, and -999 dB where that bin is outside the block.
pub open spec fn tone_level(
    work: Seq<Seq<Seq<i64>>>,
    tbl: Seq<i64>,
    n: int,
    rate: int,
    band: int,
    level: int,
    j: int,
) -> int {
    let bin = center_bin(tbl, band, j);
    if bin < 0 || bin >= n {
        LEVEL_FLOOR as int
    } else {
        composite(work, tbl, n, rate, band, level, bin)
    }
}

/// The first offset from `j` up whose level exceeds -200 dB, and
/// `EHMER_OFFSET` if there is none below it.
pub open spec fn fence_lo(levels: Seq<i64>, j: int) -> int
    decreases EHMER_OFFSET - j,
{
    if j < EHMER_OFFSET && levels[j] <= FENCE_LEVEL {
        fence_lo(levels, j + 1)
    } else {
        j
    }
}

/// The last offset from `j` down whose level exceeds -200 dB, and
/// `EHMER_OFFSET + 1` if there is none above it.
pub open spec fn fence_hi(levels: Seq<i64>, j: int) -> int
    decreases j,
{
    if j > EHMER_OFFSET + 1 && levels[j] <= FENCE_LEVEL {
        fence_hi(levels, j - 1)
    } else {
        j
    }
}

/// `row` is the tone-curve row of `band` at `level`: the two fenceposts of
/// its levels, then the level of each offset.
pub open spec fn is_tone_row(
    row: Seq<i64>,
    work: Seq<Seq<Seq<i64>>>,
    tbl: Seq<i64>,
    n: int,
    rate: int,
    band: int,
    level: int,
) -> bool {
    &&& row.len() == TONE_ROW
    &&& forall|j: int| 0 <= j < EHMER_MAX ==> #[trigger] row[j + 2] == tone_level(work, tbl, n, rate, band, level, j)
    &&& row[0] == fence_lo(row.subrange(2, TONE_ROW as int), 0)
    &&& row[1] == fence_hi(row.subrange(2, TONE_ROW as int), EHMER_MAX - 1)
}

/// `table` holds the tone-curve row of every band and level.
pub open spec fn is_tone_table(
    table: Seq<Seq<Seq<i64>>>,
    work: Seq<Seq<Seq<i64>>>,
    tbl: Seq<i64>,
    n: int,
    rate: int,
) -> bool {
    &&& table.len() == P_BANDS
    &&& forall|b: int| 0 <= b < P_BANDS ==> (#[trigger] table[b]).len() == P_LEVELS
    &&& forall|b: int, l: int|
        0 <= b < P_BANDS && 0 <= l < P_LEVELS ==> is_tone_row((#[trigger] table[b][l]), work, tbl, n, rate, b, l)
}

/// In every row of `table` the fenceposts enclose the masker.
pub open spec fn fenceposts_valid(table: Seq<Seq<Seq<i64>>>) -> bool {
    forall|b: int, l: int|
        0 <= b < P_BANDS && 0 <= l < P_LEVELS ==> fenceposts_enclose((#[trigger] table[b][l]))
}

/// At every offset of every band, a louder level never has the higher tone
/// curve.
pub open spec fn tone_levels_descend(table: Seq<Seq<Seq<i64>>>) -> bool {
    forall|b: int, l: int, j: int|
        0 <= b < P_BANDS && 1 <= l < P_LEVELS && 0 <= j < EHMER_MAX ==> #[trigger] table[b][l][j + 2]
            <= table[b][l - 1][j + 2]
}

/// The fenceposts of a row enclose the masker.
pub open spec fn fenceposts_enclose(row: Seq<i64>) -> bool {
    0 <= row[0] <= EHMER_OFFSET <= row[1] < EHMER_MAX
}

/// The bin that holds step `s`, moved up by `add` and kept inside the block.
fn bin_in_block(tbl: &Vec<i64>, s: usize, add: i64, n: usize) -> (r: usize)
    requires
        is_octave_table(tbl@),
        s < OCTAVE_STEPS,
        0 <= add <= 1,
        n <= MAX_BINS,
    ensures
        r == clamp(step_bin(tbl@, s as int) + add, 0, n as int),
{
    let at: i64 = floor_fixed(tbl[s]) + add;
    if at > n as i64 {
        n
    } else {
        at as usize
    }
}

/// Renders `curve`, the curve of source band `k`, into the bins of `buf`:
/// each bin keeps the lowest of what it held and the levels of the offsets
/// that cover it.
pub fn splat_curve(curve: &Vec<i64>, tbl: &Vec<i64>, n: usize, k: usize, buf: &mut Vec<i64>)
    requires
        curve@.len() == EHMER_MAX,
        is_octave_table(tbl@),
        k < P_BANDS,
        n <= MAX_BINS,
        old(buf)@.len() == n,
    ensures
        final(buf)@.len() == n,
        forall|b: int|
            0 <= b < n ==> final(buf)@[b] == splat(curve@, tbl@, n as int, k as int, old(buf)@[b] as int, b),
{
    let ghost before = buf@;
    let mut l: usize = 0;
    let mut j: usize = 0;
    while j < EHMER_MAX
        invariant
            j <= EHMER_MAX,
            curve@.len() == EHMER_MAX,
            is_octave_table(tbl@),
            k < P_BANDS,
            n <= MAX_BINS,
            before.len() == n,
            buf@.len() == n,
            l == cursor(tbl@, n as int, k as int, j as int),
            l <= n,
            forall|b: int|
                0 <= b < n ==> buf@[b] == splat_upto(curve@, tbl@, n as int, k as int, before[b] as int, b, j as int),
        decreases EHMER_MAX - j,
    {
        let lo: usize = bin_in_block(tbl, 2 * j + 8 * k, 0, n);
        let hi: usize = bin_in_block(tbl, 2 * j + 8 * k + 2, 1, n);
        if lo < l {
            l = lo;
        }
        let ghost start = l;
        let level: i64 = curve[j];
        while l < hi
            invariant
                j < EHMER_MAX,
                before.len() == n,
                buf@.len() == n,
                hi <= n,
                start <= l,
                l <= hi || l == start,
                level == curve@[j as int],
                forall|b: int|
                    0 <= b < n ==> buf@[b] == if start <= b < l {
                        min2(splat_upto(curve@, tbl@, n as int, k as int, before[b] as int, b, j as int), level as int)
                    } else {
                        splat_upto(curve@, tbl@, n as int, k as int, before[b] as int, b, j as int)
                    },
            decreases hi - l,
        {
            let low: i64 = min_i64(buf[l], level);
            buf.set(l, low);
            l += 1;
        }
        assert(start == min2(cursor(tbl@, n as int, k as int, j as int), lo_bin(tbl@, n as int, k as int, j as int)));
        assert(hi == hi_bin(tbl@, n as int, k as int, j as int));
        assert(l == cursor(tbl@, n as int, k as int, j + 1));
        assert forall|b: int| 0 <= b < n implies buf@[b] == splat_upto(
            curve@,
            tbl@,
            n as int,
            k as int,
            before[b] as int,
            b,
            j + 1,
        ) by {
            assert(covers(tbl@, n as int, k as int, j as int, b) <==> start <= b < l);
        }
        j += 1;
    }
    let ghost end = l;
    let last: i64 = curve[EHMER_MAX - 1];
    while l < n
        invariant
            before.len() == n,
            buf@.len() == n,
            end <= l <= n,
            last == curve@[EHMER_MAX - 1],
            forall|b: int|
                0 <= b < n ==> buf@[b] == if end <= b < l {
                    min2(
                        splat_upto(curve@, tbl@, n as int, k as int, before[b] as int, b, EHMER_MAX as int),
                        last as int,
                    )
                } else {
                    splat_upto(curve@, tbl@, n as int, k as int, before[b] as int, b, EHMER_MAX as int)
                },
        decreases n - l,
    {
        let low: i64 = min_i64(buf[l], last);
        buf.set(l, low);
        l += 1;
    }
}

/// The source bands of `band`: the first, and one past the last.
pub fn source_bands(tbl: &Vec<i64>, n: usize, rate: u32, band: usize) -> (r: (usize, usize))
    requires
        is_octave_table(tbl@),
        n <= MAX_BINS,
        band < P_BANDS,
    ensures
        r.0 == lo_curve(tbl@, n as int, rate as int, band as int),
        r.1 == hi_curve(tbl@, n as int, rate as int, band as int),
        r.0 <= band,
        r.1 <= P_BANDS,
{
    let bin: u128 = floor_fixed(tbl[8 * band + OCTAVE_ORIGIN]) as u128;
    let den: u128 = 125 * (n as u128);
    assert(den * den <= 4_096_000 * 4_096_000) by (nonlinear_arith)
        requires
            0 <= den <= 4_096_000,
    {
    }
    let den2: u128 = den * den;
    assert((bin + 1) * rate <= 2_000_000_001 * 0xffff_ffff) by (nonlinear_arith)
        requires
            0 <= bin <= 2_000_000_000,
            0 <= rate <= 0xffff_ffff,
    {
    }
    assert(bin * rate <= 2_000_000_000 * 0xffff_ffff) by (nonlinear_arith)
        requires
            0 <= bin <= 2_000_000_000,
            0 <= rate <= 0xffff_ffff,
    {
    }
    let above: u128 = (bin + 1) * (rate as u128);
    let below: u128 = bin * (rate as u128) + 2 * (n as u128);
    assert(above * above <= 8_589_934_594_294_967_295 * 8_589_934_594_294_967_295) by (nonlinear_arith)
        requires
            0 <= above <= 8_589_934_594_294_967_295,
    {
    }
    assert(below * below <= 8_589_934_590_000_065_536 * 8_589_934_590_000_065_536) by (nonlinear_arith)
        requires
            0 <= below <= 8_589_934_590_000_065_536,
    {
    }
    let above2: u128 = above * above;
    let below2: u128 = below * below;

    proof {
        vstd::arithmetic::power2::lemma2_to64();
    }
    let mut hi: usize = 0;
    let mut p: u128 = den2;
    while hi < P_BANDS && above2 >= 2 * p
        invariant
            hi <= P_BANDS,
            p == pow2(hi as nat) * (den * den),
            p <= 131072 * 16_777_216_000_000,
            den * den <= 16_777_216_000_000,
            above2 == above * above,
            hi_scan(above as int, den as int, hi as int) == hi_scan(above as int, den as int, 0),
        decreases P_BANDS - hi,
    {
        proof {
            lemma_doubling(hi as nat, den * den);
        }
        p = 2 * p;
        hi += 1;
    }
    proof {
        if hi < P_BANDS {
            lemma_doubling(hi as nat, den * den);
        }
    }

    let mut lo: usize = 0;
    let mut q: u128 = den2;
    while lo < band && below2 > q
        invariant
            lo <= band,
            band < P_BANDS,
            q == pow2(lo as nat) * (den * den),
            q <= 131072 * 16_777_216_000_000,
            den * den <= 16_777_216_000_000,
            below2 == below * below,
            lo_scan(below as int, den as int, band as int, lo as int) == lo_scan(
                below as int,
                den as int,
                band as int,
                0,
            ),
        decreases band - lo,
    {
        proof {
            lemma_doubling(lo as nat, den * den);
        }
        q = 2 * q;
        lo += 1;
    }
    (lo, hi)
}

/// One half octave up doubles the squared frequency: the step from
/// `pow2(h) * d` to `pow2(h + 1) * d`, with its bound for `h` below `P_BANDS`.
proof fn lemma_doubling(h: nat, d: int)
    requires
        h < P_BANDS,
        0 <= d <= 16_777_216_000_000,
    ensures
        pow2(h + 1) * d == 2 * (pow2(h) * d),
        pow2(h + 1) * d <= 131072 * 16_777_216_000_000,
{
    lemma_pow2_unfold(h + 1);
    vstd::arithmetic::power2::lemma2_to64();
    if h + 1 < 17 {
        vstd::arithmetic::power2::lemma_pow2_strictly_increases(h + 1, 17);
    }
    let a = pow2(h);
    let b = pow2(h + 1);
    assert(b * d == 2 * (a * d) && b * d <= 131072 * 16_777_216_000_000) by (nonlinear_arith)
        requires
            b == 2 * a,
            0 <= b <= 131072,
            0 <= d <= 16_777_216_000_000,
    {
    }
}

/// The curve of `band` at `level` in a table of curves is the one that its
/// view shows.
proof fn lemma_table_view_curve(work: &Vec<Vec<Vec<i64>>>, band: int, level: int)
    requires
        is_curve_table(table_view(work)),
        0 <= band < P_BANDS,
        0 <= level < P_LEVELS,
    ensures
        work@.len() == P_BANDS,
        work@[band]@.len() == P_LEVELS,
        work@[band]@[level]@.len() == EHMER_MAX,
        table_view(work)[band][level] == work@[band]@[level]@,
{
    let view = table_view(work);
    assert(view.len() == P_BANDS);
    assert(view[band].len() == P_LEVELS);
    assert(view[band][level].len() == EHMER_MAX);
}

/// The tone-curve row of `band` at `level`.
pub fn tone_row(work: &Vec<Vec<Vec<i64>>>, tbl: &Vec<i64>, n: usize, rate: u32, band: usize, level: usize) -> (row:
    Vec<i64>)
    requires
        is_curve_table(table_view(work)),
        is_octave_table(tbl@),
        n <= MAX_BINS,
        band < P_BANDS,
        level < P_LEVELS,
    ensures
        is_tone_row(row@, table_view(work), tbl@, n as int, rate as int, band as int, level as int),
        fenceposts_enclose(row@),
{
    let (lo, hi) = source_bands(tbl, n, rate, band);
    let mut buf: Vec<i64> = Vec::new();
    let mut b: usize = 0;
    while b < n
        invariant
            b <= n,
            buf@.len() == b,
            forall|t: int| 0 <= t < b ==> buf@[t] == LEVEL_CEILING,
        decreases n - b,
    {
        buf.push(LEVEL_CEILING);
        b += 1;
    }
    let mut k: usize = lo;
    while k < hi
        invariant
            is_curve_table(table_view(work)),
            is_octave_table(tbl@),
            n <= MAX_BINS,
            level < P_LEVELS,
            hi <= P_BANDS,
            lo <= k,
            k <= hi || k == lo,
            buf@.len() == n,
            forall|t: int|
                0 <= t < n ==> buf@[t] == composite_upto(table_view(work), tbl@, n as int, level as int, t, lo as int, k as int),
        decreases hi - k,
    {
        proof {
            lemma_table_view_curve(work, k as int, level as int);
        }
        splat_curve(&work[k][level], tbl, n, k, &mut buf);
        k += 1;
    }
    assert(forall|t: int|
        0 <= t < n ==> buf@[t] == composite_upto(table_view(work), tbl@, n as int, level as int, t, lo as int, hi as int));
    if band + 1 < P_BANDS {
        proof {
            lemma_table_view_curve(work, band + 1, level as int);
        }
        splat_curve(&work[band + 1][level], tbl, n, band + 1, &mut buf);
    }
    assert(forall|t: int|
        0 <= t < n ==> buf@[t] == composite(table_view(work), tbl@, n as int, rate as int, band as int, level as int, t));

    let mut levels: Vec<i64> = Vec::new();
    let mut j: usize = 0;
    while j < EHMER_MAX
        invariant
            j <= EHMER_MAX,
            is_octave_table(tbl@),
            n <= MAX_BINS,
            band < P_BANDS,
            buf@.len() == n,
            forall|t: int|
                0 <= t < n ==> buf@[t] == composite(table_view(work), tbl@, n as int, rate as int, band as int, level as int, t),
            levels@.len() == j,
            forall|t: int|
                0 <= t < j ==> levels@[t] == tone_level(
                    table_view(work),
                    tbl@,
                    n as int,
                    rate as int,
                    band as int,
                    level as int,
                    t,
                ),
        decreases EHMER_MAX - j,
    {
        let bin: i64 = floor_fixed(tbl[2 * j + 8 * band + 1]);
        if bin < 0 || bin >= n as i64 {
            levels.push(LEVEL_FLOOR);
        } else {
            levels.push(buf[bin as usize]);
        }
        j += 1;
    }

    let mut first: usize = 0;
    while first < EHMER_OFFSET && levels[first] <= FENCE_LEVEL
        invariant
            first <= EHMER_OFFSET,
            levels@.len() == EHMER_MAX,
            fence_lo(levels@, first as int) == fence_lo(levels@, 0),
        decreases EHMER_OFFSET - first,
    {
        first += 1;
    }
    let mut last: usize = EHMER_MAX - 1;
    while last > EHMER_OFFSET + 1 && levels[last] <= FENCE_LEVEL
        invariant
            EHMER_OFFSET + 1 <= last < EHMER_MAX,
            levels@.len() == EHMER_MAX,
            fence_hi(levels@, last as int) == fence_hi(levels@, EHMER_MAX - 1),
        decreases last,
    {
        last -= 1;
    }

    let mut row: Vec<i64> = Vec::new();
    row.push(first as i64);
    row.push(last as i64);
    let mut t: usize = 0;
    while t < EHMER_MAX
        invariant
            t <= EHMER_MAX,
            levels@.len() == EHMER_MAX,
            row@.len() == t + 2,
            row@[0] == first,
            row@[1] == last,
            forall|u: int| 0 <= u < t ==> #[trigger] row@[u + 2] == levels@[u],
        decreases EHMER_MAX - t,
    {
        row.push(levels[t]);
        t += 1;
    }
    assert(row@.subrange(2, TONE_ROW as int) =~= levels@);
    row
}

/// The tone curves of a block of `n` bins: for each band and level, the
/// working curves of the band's source bands rendered into the bins and read
/// back at the offsets of the window.
pub fn resample_curves(work: &Vec<Vec<Vec<i64>>>, tbl: &Vec<i64>, n: usize, rate: u32) -> (table: Vec<
    Vec<Vec<i64>>,
>)
    requires
        is_curve_table(table_view(work)),
        is_octave_table(tbl@),
        n <= MAX_BINS,
    ensures
        is_tone_table(table_view(&table), table_view(work), tbl@, n as int, rate as int),
        fenceposts_valid(table_view(&table)),
        levels_descend(table_view(work)) ==> tone_levels_descend(table_view(&table)),
{
    let mut table: Vec<Vec<Vec<i64>>> = Vec::new();
    let mut band: usize = 0;
    while band < P_BANDS
        invariant
            band <= P_BANDS,
            is_curve_table(table_view(work)),
            is_octave_table(tbl@),
            n <= MAX_BINS,
            table@.len() == band,
            forall|b: int| 0 <= b < band ==> (#[trigger] table@[b])@.len() == P_LEVELS,
            forall|b: int, l: int|
                0 <= b < band && 0 <= l < P_LEVELS ==> is_tone_row(
                    (#[trigger] table@[b]@[l])@,
                    table_view(work),
                    tbl@,
                    n as int,
                    rate as int,
                    b,
                    l,
                ),
            forall|b: int, l: int|
                0 <= b < band && 0 <= l < P_LEVELS ==> fenceposts_enclose((#[trigger] table@[b]@[l])@),
        decreases P_BANDS - band,
    {
        let mut rows: Vec<Vec<i64>> = Vec::new();
        let mut level: usize = 0;
        while level < P_LEVELS
            invariant
                level <= P_LEVELS,
                band < P_BANDS,
                is_curve_table(table_view(work)),
                is_octave_table(tbl@),
                n <= MAX_BINS,
                rows@.len() == level,
                forall|l: int|
                    0 <= l < level ==> is_tone_row(
                        (#[trigger] rows@[l])@,
                        table_view(work),
                        tbl@,
                        n as int,
                        rate as int,
                        band as int,
                        l,
                    ),
                forall|l: int| 0 <= l < level ==> fenceposts_enclose((#[trigger] rows@[l])@),
            decreases P_LEVELS - level,
        {
            let row = tone_row(work, tbl, n, rate, band, level);
            rows.push(row);
            level += 1;
        }
        table.push(rows);
        band += 1;
    }
    proof {
        let view = table_view(&table);
        assert forall|b: int, l: int| 0 <= b < P_BANDS && 0 <= l < P_LEVELS implies is_tone_row(
            #[trigger] view[b][l],
            table_view(work),
            tbl@,
            n as int,
            rate as int,
            b,
            l,
        ) && fenceposts_enclose(view[b][l]) by {
            assert(view[b][l] == table@[b]@[l]@);
        }
        if levels_descend(table_view(work)) {
            assert forall|b: int, l: int, j: int|
                0 <= b < P_BANDS && 1 <= l < P_LEVELS && 0 <= j < EHMER_MAX implies #[trigger] view[b][l][j + 2]
                <= view[b][l - 1][j + 2] by {
                lemma_tone_level_descends(table_view(work), tbl@, n as int, rate as int, b, l, j);
                assert(is_tone_row(view[b][l], table_view(work), tbl@, n as int, rate as int, b, l));
                assert(is_tone_row(view[b][l - 1], table_view(work), tbl@, n as int, rate as int, b, l - 1));
            }
        }
    }
    table
}

/// Rendering keeps order: a curve that is nowhere higher, over bins that
/// held nothing higher, leaves nothing higher.
pub proof fn lemma_splat_upto_ordered(
    c1: Seq<i64>,
    c2: Seq<i64>,
    tbl: Seq<i64>,
    n: int,
    k: int,
    held1: int,
    held2: int,
    b: int,
    j: int,
)
    requires
        c1.len() == EHMER_MAX,
        c2.len() == EHMER_MAX,
        forall|t: int| 0 <= t < EHMER_MAX ==> c1[t] <= c2[t],
        held1 <= held2,
        0 <= j <= EHMER_MAX,
    ensures
        splat_upto(c1, tbl, n, k, held1, b, j) <= splat_upto(c2, tbl, n, k, held2, b, j),
    decreases j,
{
    if j > 0 {
        lemma_splat_upto_ordered(c1, c2, tbl, n, k, held1, held2, b, j - 1);
    }
}

/// The first source band is not negative.
pub proof fn lemma_lo_scan_bounds(num: int, den: int, limit: int, h: int)
    requires
        0 <= h <= limit,
    ensures
        h <= lo_scan(num, den, limit, h) <= limit,
    decreases limit - h,
{
    if h < limit && !within_half_octave(num, den, h) {
        lemma_lo_scan_bounds(num, den, limit, h + 1);
    }
}

/// The source bands end at `P_BANDS` at the latest.
pub proof fn lemma_hi_scan_bounds(num: int, den: int, h: int)
    requires
        0 <= h <= P_BANDS,
    ensures
        h <= hi_scan(num, den, h) <= P_BANDS,
    decreases P_BANDS - h,
{
    if h < P_BANDS && reaches_half_octave(num, den, h + 1) {
        lemma_hi_scan_bounds(num, den, h + 1);
    }
}

/// At every offset of every band, the curve of `low` at level `l1` lies on or
/// below the curve of `high` at level `l2`.
pub open spec fn curves_ordered(low: Seq<Seq<Seq<i64>>>, l1: int, high: Seq<Seq<Seq<i64>>>, l2: int) -> bool {
    forall|b: int, k: int| 0 <= b < P_BANDS && 0 <= k < EHMER_MAX ==> #[trigger] low[b][l1][k] <= high[b][l2][k]
}

/// The composite of any run of source bands keeps order: curves that are
/// nowhere higher give a composite that is nowhere higher.
proof fn lemma_composite_upto_ordered(
    low: Seq<Seq<Seq<i64>>>,
    l1: int,
    high: Seq<Seq<Seq<i64>>>,
    l2: int,
    tbl: Seq<i64>,
    n: int,
    b: int,
    lo: int,
    kk: int,
)
    requires
        is_curve_table(low),
        is_curve_table(high),
        curves_ordered(low, l1, high, l2),
        0 <= l1 < P_LEVELS,
        0 <= l2 < P_LEVELS,
        0 <= lo,
        kk <= P_BANDS,
    ensures
        composite_upto(low, tbl, n, l1, b, lo, kk) <= composite_upto(high, tbl, n, l2, b, lo, kk),
    decreases kk - lo,
{
    if kk > lo {
        lemma_composite_upto_ordered(low, l1, high, l2, tbl, n, b, lo, kk - 1);
        lemma_curve_ordered(low, l1, high, l2, kk - 1);
        lemma_splat_upto_ordered(
            low[kk - 1][l1],
            high[kk - 1][l2],
            tbl,
            n,
            kk - 1,
            composite_upto(low, tbl, n, l1, b, lo, kk - 1),
            composite_upto(high, tbl, n, l2, b, lo, kk - 1),
            b,
            EHMER_MAX as int,
        );
    }
}

/// Where two tables of curves are ordered, so are the two curves of a band.
proof fn lemma_curve_ordered(low: Seq<Seq<Seq<i64>>>, l1: int, high: Seq<Seq<Seq<i64>>>, l2: int, band: int)
    requires
        is_curve_table(low),
        is_curve_table(high),
        curves_ordered(low, l1, high, l2),
        0 <= l1 < P_LEVELS,
        0 <= l2 < P_LEVELS,
        0 <= band < P_BANDS,
    ensures
        low[band][l1].len() == EHMER_MAX,
        high[band][l2].len() == EHMER_MAX,
        forall|t: int| 0 <= t < EHMER_MAX ==> low[band][l1][t] <= high[band][l2][t],
{
    assert forall|t: int| 0 <= t < EHMER_MAX implies low[band][l1][t] <= high[band][l2][t] by {
        assert(low[band][l1][t] <= high[band][l2][t]);
    }
}

/// Resampling keeps order: working curves that are nowhere higher give tone
/// curves that are nowhere higher, at every offset of every band.
pub proof fn lemma_tone_level_ordered(
    low: Seq<Seq<Seq<i64>>>,
    l1: int,
    high: Seq<Seq<Seq<i64>>>,
    l2: int,
    tbl: Seq<i64>,
    n: int,
    rate: int,
    band: int,
    j: int,
)
    requires
        is_curve_table(low),
        is_curve_table(high),
        curves_ordered(low, l1, high, l2),
        0 <= l1 < P_LEVELS,
        0 <= l2 < P_LEVELS,
        0 <= band < P_BANDS,
    ensures
        tone_level(low, tbl, n, rate, band, l1, j) <= tone_level(high, tbl, n, rate, band, l2, j),
{
    let bin = center_bin(tbl, band, j);
    let lo = lo_curve(tbl, n, rate, band);
    let hi = hi_curve(tbl, n, rate, band);
    lemma_lo_scan_bounds(band_bin(tbl, band) * rate + 2 * n, 125 * n, band, 0);
    lemma_hi_scan_bounds((band_bin(tbl, band) + 1) * rate, 125 * n, 0);
    lemma_composite_upto_ordered(low, l1, high, l2, tbl, n, bin, lo, hi);
    if band + 1 < P_BANDS {
        lemma_curve_ordered(low, l1, high, l2, band + 1);
        lemma_splat_upto_ordered(
            low[band + 1][l1],
            high[band + 1][l2],
            tbl,
            n,
            band + 1,
            composite_upto(low, tbl, n, l1, bin, lo, hi),
            composite_upto(high, tbl, n, l2, bin, lo, hi),
            bin,
            EHMER_MAX as int,
        );
    }
}

/// Where the working curves descend from level to level, so do the tone
/// curves, at every offset of every band.
pub proof fn lemma_tone_level_descends(
    work: Seq<Seq<Seq<i64>>>,
    tbl: Seq<i64>,
    n: int,
    rate: int,
    band: int,
    level: int,
    j: int,
)
    requires
        is_curve_table(work),
        levels_descend(work),
        0 <= band < P_BANDS,
        1 <= level < P_LEVELS,
    ensures
        tone_level(work, tbl, n, rate, band, level, j) <= tone_level(work, tbl, n, rate, band, level - 1, j),
{
    assert forall|b: int, k: int| 0 <= b < P_BANDS && 0 <= k < EHMER_MAX implies #[trigger] work[b][level][k]
        <= work[b][level - 1][k] by {
    }
    lemma_tone_level_ordered(work, level, work, level - 1, tbl, n, rate, band, j);
}

/// The fenceposts of any levels enclose the masker.
pub proof fn lemma_fences_enclose(levels: Seq<i64>, lo: int, hi: int)
    requires
        0 <= lo <= EHMER_OFFSET,
        EHMER_OFFSET + 1 <= hi < EHMER_MAX,
    ensures
        lo <= fence_lo(levels, lo) <= EHMER_OFFSET,
        EHMER_OFFSET + 1 <= fence_hi(levels, hi) <= hi,
    decreases EHMER_OFFSET - lo + hi,
{
    if lo < EHMER_OFFSET && levels[lo] <= FENCE_LEVEL {
        lemma_fences_enclose(levels, lo + 1, hi);
    } else if hi > EHMER_OFFSET + 1 && levels[hi] <= FENCE_LEVEL {
        lemma_fences_enclose(levels, lo, hi - 1);
    }
}

/// In every tone-curve row the fenceposts enclose the masker, whatever the
/// levels of the row.
pub proof fn lemma_row_fenceposts(
    row: Seq<i64>,
    work: Seq<Seq<Seq<i64>>>,
    tbl: Seq<i64>,
    n: int,
    rate: int,
    band: int,
    level: int,
)
    requires
        is_tone_row(row, work, tbl, n, rate, band, level),
    ensures
        fenceposts_enclose(row),
{
    lemma_fences_enclose(row.subrange(2, TONE_ROW as int), 0, EHMER_MAX - 1);
}

/// Offset `j` of source band `k` reaches bin `b`: it covers the bin, or it is
/// the last offset and the bin lies above all that was covered.
pub open spec fn reaches_bin(tbl: Seq<i64>, n: int, k: int, j: int, b: int) -> bool {
    covers(tbl, n, k, j, b) || (j == EHMER_MAX - 1 && b >= cursor(tbl, n, k, EHMER_MAX as int))
}

/// After the offsets before `j` were rendered, a bin holds the lowest of what
/// it held and the levels of those offsets that cover it: it is no higher
/// than any of them, and it is one of them.
pub proof fn lemma_splat_upto_lowest(curve: Seq<i64>, tbl: Seq<i64>, n: int, k: int, prev: int, b: int, j: int)
    requires
        0 <= j <= EHMER_MAX,
    ensures
        splat_upto(curve, tbl, n, k, prev, b, j) <= prev,
        forall|t: int|
            0 <= t < j && #[trigger] covers(tbl, n, k, t, b) ==> splat_upto(curve, tbl, n, k, prev, b, j) <= curve[t],
        splat_upto(curve, tbl, n, k, prev, b, j) == prev || exists|t: int|
            0 <= t < j && #[trigger] covers(tbl, n, k, t, b) && splat_upto(curve, tbl, n, k, prev, b, j) == curve[t],
    decreases j,
{
    if j > 0 {
        lemma_splat_upto_lowest(curve, tbl, n, k, prev, b, j - 1);
        let p = splat_upto(curve, tbl, n, k, prev, b, j - 1);
        let r = splat_upto(curve, tbl, n, k, prev, b, j);
        if r != prev {
            if covers(tbl, n, k, j - 1, b) && r == curve[j - 1] {
            } else {
                let t = choose|t: int| 0 <= t < j - 1 && #[trigger] covers(tbl, n, k, t, b) && p == curve[t];
                assert(covers(tbl, n, k, t, b) && r == curve[t]);
            }
        }
    }
}

/// Rendering is pessimistic: after a curve was rendered, a bin holds the
/// lowest of what it held and the levels of the offsets that reach it.
pub proof fn lemma_splat_lowest(curve: Seq<i64>, tbl: Seq<i64>, n: int, k: int, prev: int, b: int)
    ensures
        splat(curve, tbl, n, k, prev, b) <= prev,
        forall|t: int|
            0 <= t < EHMER_MAX && #[trigger] reaches_bin(tbl, n, k, t, b) ==> splat(curve, tbl, n, k, prev, b)
                <= curve[t],
        splat(curve, tbl, n, k, prev, b) == prev || exists|t: int|
            0 <= t < EHMER_MAX && #[trigger] reaches_bin(tbl, n, k, t, b) && splat(curve, tbl, n, k, prev, b)
                == curve[t],
{
    lemma_splat_upto_lowest(curve, tbl, n, k, prev, b, EHMER_MAX as int);
    let p = splat_upto(curve, tbl, n, k, prev, b, EHMER_MAX as int);
    let r = splat(curve, tbl, n, k, prev, b);
    assert forall|t: int| 0 <= t < EHMER_MAX && #[trigger] reaches_bin(tbl, n, k, t, b) implies r <= curve[t] by {
        if covers(tbl, n, k, t, b) {
            assert(p <= curve[t]);
        }
    }
    if r != prev {
        if b >= cursor(tbl, n, k, EHMER_MAX as int) && r == curve[EHMER_MAX - 1] {
            assert(reaches_bin(tbl, n, k, EHMER_MAX - 1, b));
        } else {
            let t = choose|t: int| 0 <= t < EHMER_MAX && #[trigger] covers(tbl, n, k, t, b) && p == curve[t];
            assert(reaches_bin(tbl, n, k, t, b) && r == curve[t]);
        }
    }
}

/// The source bands end with the last half octave that the upper edge of
/// the bin reaches: every half octave up to it is reached, the next is not.
pub proof fn lemma_hi_scan_last(num: int, den: int, h: int)
    requires
        0 <= h <= P_BANDS,
    ensures
        forall|g: int| h < g <= hi_scan(num, den, h) ==> #[trigger] reaches_half_octave(num, den, g),
        hi_scan(num, den, h) == P_BANDS || !reaches_half_octave(num, den, hi_scan(num, den, h) + 1),
    decreases P_BANDS - h,
{
    if h < P_BANDS && reaches_half_octave(num, den, h + 1) {
        lemma_hi_scan_last(num, den, h + 1);
    }
}

/// The source bands start with the first half octave that the lower edge of
/// the bin lies within: no half octave before it holds the edge.
pub proof fn lemma_lo_scan_first(num: int, den: int, limit: int, h: int)
    requires
        0 <= h <= limit,
    ensures
        forall|g: int| h <= g < lo_scan(num, den, limit, h) ==> !#[trigger] within_half_octave(num, den, g),
        lo_scan(num, den, limit, h) == limit || within_half_octave(num, den, lo_scan(num, den, limit, h)),
    decreases limit - h,
{
    if h < limit && !within_half_octave(num, den, h) {
        lemma_lo_scan_first(num, den, limit, h + 1);
    }
}

/// The lower fencepost is the first offset below the masker whose level
/// exceeds -200 dB, and the masker where there is none.
pub proof fn lemma_fence_lo_first(levels: Seq<i64>, j: int)
    requires
        0 <= j <= EHMER_OFFSET,
    ensures
        forall|t: int| j <= t < fence_lo(levels, j) ==> #[trigger] levels[t] <= FENCE_LEVEL,
        fence_lo(levels, j) == EHMER_OFFSET || levels[fence_lo(levels, j)] > FENCE_LEVEL,
    decreases EHMER_OFFSET - j,
{
    if j < EHMER_OFFSET && levels[j] <= FENCE_LEVEL {
        lemma_fence_lo_first(levels, j + 1);
    }
}

/// The upper fencepost is the last offset more than one above the masker
/// whose level exceeds -200 dB, and the offset after the masker where there
/// is none.
pub proof fn lemma_fence_hi_last(levels: Seq<i64>, j: int)
    requires
        EHMER_OFFSET + 1 <= j < EHMER_MAX,
    ensures
        forall|t: int| fence_hi(levels, j) < t <= j ==> #[trigger] levels[t] <= FENCE_LEVEL,
        fence_hi(levels, j) == EHMER_OFFSET + 1 || levels[fence_hi(levels, j)] > FENCE_LEVEL,
    decreases j,
{
    if j > EHMER_OFFSET + 1 && levels[j] <= FENCE_LEVEL {
        lemma_fence_hi_last(levels, j - 1);
    }
}

/// Band `k` is a source band of `band`: one of the bands whose half octave
/// lies inside the bin of `band`, or the band above `band`.
pub open spec fn is_source(tbl: Seq<i64>, n: int, rate: int, band: int, k: int) -> bool {
    lo_curve(tbl, n, rate, band) <= k < hi_curve(tbl, n, rate, band) || (k == band + 1 && band + 1 < P_BANDS)
}

/// After the source bands from `lo` up to `kk` were rendered, a bin holds
/// the lowest of 999 dB and the levels of their offsets that reach it.
proof fn lemma_composite_upto_lowest(
    work: Seq<Seq<Seq<i64>>>,
    tbl: Seq<i64>,
    n: int,
    level: int,
    b: int,
    lo: int,
    kk: int,
)
    ensures
        composite_upto(work, tbl, n, level, b, lo, kk) <= LEVEL_CEILING,
        forall|k: int, t: int|
            lo <= k < kk && 0 <= t < EHMER_MAX && #[trigger] reaches_bin(tbl, n, k, t, b) ==> composite_upto(
                work,
                tbl,
                n,
                level,
                b,
                lo,
                kk,
            ) <= work[k][level][t],
        composite_upto(work, tbl, n, level, b, lo, kk) == LEVEL_CEILING || exists|k: int, t: int|
            lo <= k < kk && 0 <= t < EHMER_MAX && #[trigger] reaches_bin(tbl, n, k, t, b) && composite_upto(
                work,
                tbl,
                n,
                level,
                b,
                lo,
                kk,
            ) == work[k][level][t],
    decreases kk - lo,
{
    if kk > lo {
        let before = composite_upto(work, tbl, n, level, b, lo, kk - 1);
        let after = composite_upto(work, tbl, n, level, b, lo, kk);
        lemma_composite_upto_lowest(work, tbl, n, level, b, lo, kk - 1);
        lemma_splat_lowest(work[kk - 1][level], tbl, n, kk - 1, before, b);
        if after != LEVEL_CEILING {
            if after == before {
                let (k, t) = choose|k: int, t: int|
                    lo <= k < kk - 1 && 0 <= t < EHMER_MAX && #[trigger] reaches_bin(tbl, n, k, t, b) && before
                        == work[k][level][t];
                assert(lo <= k < kk && reaches_bin(tbl, n, k, t, b) && after == work[k][level][t]);
            } else {
                let t = choose|t: int|
                    0 <= t < EHMER_MAX && #[trigger] reaches_bin(tbl, n, kk - 1, t, b) && after == work[kk
                        - 1][level][t];
                assert(lo <= kk - 1 < kk && reaches_bin(tbl, n, kk - 1, t, b) && after == work[kk - 1][level][t]);
            }
        }
    }
}

/// The composite is pessimistic: a bin of the composite of `band` holds the
/// lowest of 999 dB and the levels of the offsets of the source bands that
/// reach the bin. It is no higher than any of them, and it is one of them.
pub proof fn lemma_composite_lowest(
    work: Seq<Seq<Seq<i64>>>,
    tbl: Seq<i64>,
    n: int,
    rate: int,
    band: int,
    level: int,
    b: int,
)
    ensures
        composite(work, tbl, n, rate, band, level, b) <= LEVEL_CEILING,
        forall|k: int, t: int|
            is_source(tbl, n, rate, band, k) && 0 <= t < EHMER_MAX && #[trigger] reaches_bin(tbl, n, k, t, b)
                ==> composite(work, tbl, n, rate, band, level, b) <= work[k][level][t],
        composite(work, tbl, n, rate, band, level, b) == LEVEL_CEILING || exists|k: int, t: int|
            is_source(tbl, n, rate, band, k) && 0 <= t < EHMER_MAX && #[trigger] reaches_bin(tbl, n, k, t, b)
                && composite(work, tbl, n, rate, band, level, b) == work[k][level][t],
{
    let lo = lo_curve(tbl, n, rate, band);
    let hi = hi_curve(tbl, n, rate, band);
    let before = composite_upto(work, tbl, n, level, b, lo, hi);
    let after = composite(work, tbl, n, rate, band, level, b);
    lemma_composite_upto_lowest(work, tbl, n, level, b, lo, hi);
    if band + 1 < P_BANDS {
        lemma_splat_lowest(work[band + 1][level], tbl, n, band + 1, before, b);
    }
    if after != LEVEL_CEILING {
        if after == before {
            let (k, t) = choose|k: int, t: int|
                lo <= k < hi && 0 <= t < EHMER_MAX && #[trigger] reaches_bin(tbl, n, k, t, b) && before
                    == work[k][level][t];
            assert(is_source(tbl, n, rate, band, k) && reaches_bin(tbl, n, k, t, b) && after == work[k][level][t]);
        } else {
            let t = choose|t: int|
                0 <= t < EHMER_MAX && #[trigger] reaches_bin(tbl, n, band + 1, t, b) && after == work[band
                    + 1][level][t];
            assert(is_source(tbl, n, rate, band, band + 1) && reaches_bin(tbl, n, band + 1, t, b) && after
                == work[band + 1][level][t]);
        }
    }
}

} // verus!
