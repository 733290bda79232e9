//! The bark window of each bin: the neighborhood of bins that noise
//! masking looks at, found by two cursors that only move up.

use vstd::prelude::*;
use crate::tables::{nondecreasing, within, BARK_LIMIT, MAX_BINS};

verus! {

/// The lower cursor, at `lo`, moves on for bin `i`: it is more than `lomin`
/// bins below the bin and more than `wlo` bark below it.
pub open spec fn lo_advances(bark: Seq<i64>, lomin: int, wlo: int, i: int, lo: int) -> bool {
    lo < bark.len() && lo + lomin < i && bark[lo] < bark[i] - wlo
}

/// The upper cursor, at `hi`, moves on for bin `i`: it is less than `himin`
/// bins above the bin, or less than `whi` bark above it.
pub open spec fn hi_advances(bark: Seq<i64>, himin: int, whi: int, i: int, hi: int) -> bool {
    hi < bark.len() && (hi < i + himin || bark[hi] < bark[i] + whi)
}

/// Where the lower cursor comes to rest for bin `i` when it starts at `lo`.
pub open spec fn rest_lo(bark: Seq<i64>, lomin: int, wlo: int, i: int, lo: int) -> int
    decreases bark.len() - lo,
{
    if lo_advances(bark, lomin, wlo, i, lo) {
        rest_lo(bark, lomin, wlo, i, lo + 1)
    } else {
        lo
    }
}

/// Where the upper cursor comes to rest for bin `i` when it starts at `hi`.
pub open spec fn rest_hi(bark: Seq<i64>, himin: int, whi: int, i: int, hi: int) -> int
    decreases bark.len() - hi,
{
    if hi_advances(bark, himin, whi, i, hi) {
        rest_hi(bark, himin, whi, i, hi + 1)
    } else {
        hi
    }
}

/// The lower bound of the window of bin `i`: the cursor starts at 1 and
/// goes on from where the bin before left it.
pub open spec fn window_lo(bark: Seq<i64>, lomin: int, wlo: int, i: int) -> int
    decreases i + 1,
{
    if i < 0 {
        1
    } else {
        rest_lo(bark, lomin, wlo, i, window_lo(bark, lomin, wlo, i - 1))
    }
}

/// The upper bound of the window of bin `i`.
pub open spec fn window_hi(bark: Seq<i64>, himin: int, whi: int, i: int) -> int
    decreases i + 1,
{
    if i < 0 {
        1
    } else {
        rest_hi(bark, himin, whi, i, window_hi(bark, himin, whi, i - 1))
    }
}

/// A window as one number: the lower bound less one in the upper 16 bits,
/// the upper bound less one in the lower 16.
pub open spec fn pack_window(lo: int, hi: int) -> int {
    (lo - 1) * 65536 + (hi - 1)
}

/// The lower bound of a packed window.
pub open spec fn unpack_lo(w: int) -> int {
    w / 65536 + 1
}

/// The upper bound of a packed window.
pub open spec fn unpack_hi(w: int) -> int {
    w % 65536 + 1
}

/// The bark window of each of the `n` bins, packed.
pub fn bark_windows(bark: &Vec<i64>, n: usize, lomin: i32, himin: i32, wlo: i64, whi: i64) -> (r: Vec<i32>)
    requires
        bark@.len() == n,
        1 <= n <= MAX_BINS,
        forall|i: int| 0 <= i < n ==> within(#[trigger] bark@[i] as int, BARK_LIMIT as int),
    ensures
        r@.len() == n,
        forall|i: int|
            0 <= i < n ==> r@[i] == pack_window(
                window_lo(bark@, lomin as int, wlo as int, i),
                window_hi(bark@, himin as int, whi as int, i),
            ),
        forall|i: int| 0 <= i < n ==> 1 <= #[trigger] window_lo(bark@, lomin as int, wlo as int, i) <= n,
        forall|i: int| 0 <= i < n ==> 1 <= #[trigger] window_hi(bark@, himin as int, whi as int, i) <= n,
{
    let mut r: Vec<i32> = Vec::new();
    let mut lo: usize = 1;
    let mut hi: usize = 1;
    let mut i: usize = 0;
    while i < n
        invariant
            i <= n,
            bark@.len() == n,
            1 <= n <= MAX_BINS,
            forall|t: int| 0 <= t < n ==> within(#[trigger] bark@[t] as int, BARK_LIMIT as int),
            1 <= lo <= n,
            1 <= hi <= n,
            lo == window_lo(bark@, lomin as int, wlo as int, i - 1),
            hi == window_hi(bark@, himin as int, whi as int, i - 1),
            r@.len() == i,
            forall|t: int|
                0 <= t < i ==> r@[t] == pack_window(
                    window_lo(bark@, lomin as int, wlo as int, t),
                    window_hi(bark@, himin as int, whi as int, t),
                ),
            forall|t: int| 0 <= t < i ==> 1 <= #[trigger] window_lo(bark@, lomin as int, wlo as int, t) <= n,
            forall|t: int| 0 <= t < i ==> 1 <= #[trigger] window_hi(bark@, himin as int, whi as int, t) <= n,
        decreases n - i,
    {
        let here: i128 = bark[i] as i128;
        let ghost lo0 = lo as int;
        let ghost hi0 = hi as int;
        while lo < n && (lo as i64) + (lomin as i64) < (i as i64) && (bark[lo] as i128) < here - (wlo as i128)
            invariant
                i < n,
                bark@.len() == n,
                n <= MAX_BINS,
                here == bark@[i as int],
                1 <= lo <= n,
                rest_lo(bark@, lomin as int, wlo as int, i as int, lo as int) == rest_lo(
                    bark@,
                    lomin as int,
                    wlo as int,
                    i as int,
                    lo0,
                ),
            decreases n - lo,
        {
            lo += 1;
        }
        while hi < n && ((hi as i64) < (i as i64) + (himin as i64) || (bark[hi] as i128) < here + (whi as i128))
            invariant
                i < n,
                bark@.len() == n,
                n <= MAX_BINS,
                here == bark@[i as int],
                1 <= hi <= n,
                rest_hi(bark@, himin as int, whi as int, i as int, hi as int) == rest_hi(
                    bark@,
                    himin as int,
                    whi as int,
                    i as int,
                    hi0,
                ),
            decreases n - hi,
        {
            hi += 1;
        }
        assert(lo == window_lo(bark@, lomin as int, wlo as int, i as int));
        assert(hi == window_hi(bark@, himin as int, whi as int, i as int));
        let packed: i32 = ((lo - 1) as i32) * 65536 + (hi - 1) as i32;
        r.push(packed);
        i += 1;
    }
    r
}

/// The lower cursor never moves down nor past the last bin; it moves on from
/// every place that it passes, and where it rests it does not move on.
pub proof fn lemma_rest_lo(bark: Seq<i64>, lomin: int, wlo: int, i: int, lo: int)
    requires
        lo <= bark.len(),
    ensures
        lo <= rest_lo(bark, lomin, wlo, i, lo) <= bark.len(),
        forall|p: int| lo <= p < rest_lo(bark, lomin, wlo, i, lo) ==> #[trigger] lo_advances(bark, lomin, wlo, i, p),
        !lo_advances(bark, lomin, wlo, i, rest_lo(bark, lomin, wlo, i, lo)),
    decreases bark.len() - lo,
{
    if lo_advances(bark, lomin, wlo, i, lo) {
        lemma_rest_lo(bark, lomin, wlo, i, lo + 1);
    }
}

/// The upper cursor never moves down nor past the last bin; it moves on from
/// every place that it passes, and where it rests it does not move on.
pub proof fn lemma_rest_hi(bark: Seq<i64>, himin: int, whi: int, i: int, hi: int)
    requires
        hi <= bark.len(),
    ensures
        hi <= rest_hi(bark, himin, whi, i, hi) <= bark.len(),
        forall|p: int| hi <= p < rest_hi(bark, himin, whi, i, hi) ==> #[trigger] hi_advances(bark, himin, whi, i, p),
        !hi_advances(bark, himin, whi, i, rest_hi(bark, himin, whi, i, hi)),
    decreases bark.len() - hi,
{
    if hi_advances(bark, himin, whi, i, hi) {
        lemma_rest_hi(bark, himin, whi, i, hi + 1);
    }
}

/// Both bounds of every window lie in the block, from bin 1 to the last.
pub proof fn lemma_window_in_block(bark: Seq<i64>, lomin: int, wlo: int, himin: int, whi: int, i: int)
    requires
        bark.len() >= 1,
        -1 <= i,
    ensures
        1 <= window_lo(bark, lomin, wlo, i) <= bark.len(),
        1 <= window_hi(bark, himin, whi, i) <= bark.len(),
    decreases i + 1,
{
    if i >= 0 {
        lemma_window_in_block(bark, lomin, wlo, himin, whi, i - 1);
        lemma_rest_lo(bark, lomin, wlo, i, window_lo(bark, lomin, wlo, i - 1));
        lemma_rest_hi(bark, himin, whi, i, window_hi(bark, himin, whi, i - 1));
    }
}

/// The bounds of the windows do not fall from one bin to a later one.
pub proof fn lemma_windows_rise(bark: Seq<i64>, lomin: int, wlo: int, himin: int, whi: int, i: int, j: int)
    requires
        bark.len() >= 1,
        -1 <= i <= j,
    ensures
        window_lo(bark, lomin, wlo, i) <= window_lo(bark, lomin, wlo, j),
        window_hi(bark, himin, whi, i) <= window_hi(bark, himin, whi, j),
    decreases j - i,
{
    if i < j {
        lemma_windows_rise(bark, lomin, wlo, himin, whi, i, j - 1);
        lemma_window_in_block(bark, lomin, wlo, himin, whi, j - 1);
        lemma_rest_lo(bark, lomin, wlo, j, window_lo(bark, lomin, wlo, j - 1));
        lemma_rest_hi(bark, himin, whi, j, window_hi(bark, himin, whi, j - 1));
    }
}

/// The lower cursor stays at or below the bin after `i` where it starts
/// there, if it may come no nearer than one bin above, or if the bark scale
/// rises and the window has a width.
proof fn lemma_rest_lo_below(bark: Seq<i64>, lomin: int, wlo: int, i: int, lo: int)
    requires
        0 <= i < bark.len(),
        0 <= lo <= i + 1,
        lomin >= -1 || (wlo >= 0 && nondecreasing(bark)),
    ensures
        rest_lo(bark, lomin, wlo, i, lo) <= i + 1,
    decreases bark.len() - lo,
{
    if lo_advances(bark, lomin, wlo, i, lo) {
        if lomin < -1 {
            assert(lo < i) by {
                if lo >= i {
                    assert(bark[i] <= bark[lo]);
                }
            }
        }
        lemma_rest_lo_below(bark, lomin, wlo, i, lo + 1);
    }
}

/// The window of a bin holds the bin: its lower bound is the bin after it at
/// most, its upper bound the bin after it at least. This needs a lower
/// cursor that may come no nearer than one bin above the bin, and an upper
/// window of one bin at least; or a bark scale that rises, a lower window
/// that is not negative and an upper window with a width.
pub proof fn lemma_window_covers_bin(bark: Seq<i64>, lomin: int, wlo: int, himin: int, whi: int, i: int)
    requires
        0 <= i < bark.len(),
        lomin >= -1 || (wlo >= 0 && nondecreasing(bark)),
        himin >= 1 || (whi > 0 && nondecreasing(bark)),
    ensures
        window_lo(bark, lomin, wlo, i) <= i + 1 <= window_hi(bark, himin, whi, i),
{
    lemma_lo_covers(bark, lomin, wlo, i);
    lemma_hi_covers(bark, himin, whi, i);
}

/// A packed window gives back both bounds, and is the number that holds the
/// lower bound less one in its upper 16 bits and the upper bound less one in
/// its lower 16.
pub proof fn lemma_window_unpacks(lo: int, hi: int)
    requires
        1 <= lo <= MAX_BINS,
        1 <= hi <= 65536,
    ensures
        0 <= pack_window(lo, hi) <= i32::MAX,
        unpack_lo(pack_window(lo, hi)) == lo,
        unpack_hi(pack_window(lo, hi)) == hi,
        pack_window(lo, hi) == (((lo - 1) as u32) << 16 | ((hi - 1) as u32)),
{
    let a = (lo - 1) as u32;
    let b = (hi - 1) as u32;
    assert((a << 16 | b) == a * 65536 + b) by (bit_vector)
        requires
            a < 32768,
            b < 65536,
    ;
    vstd::arithmetic::div_mod::lemma_fundamental_div_mod_converse(pack_window(lo, hi), 65536, lo - 1, hi - 1);
}

/// The windows of a block, unpacked, hold their bins and do not fall from
/// bin to bin.
pub proof fn lemma_bark_windows_cover(
    table: Seq<i32>,
    bark: Seq<i64>,
    lomin: int,
    wlo: int,
    himin: int,
    whi: int,
    i: int,
    j: int,
)
    requires
        1 <= bark.len() <= MAX_BINS,
        table.len() == bark.len(),
        forall|t: int|
            0 <= t < bark.len() ==> #[trigger] table[t] == pack_window(
                window_lo(bark, lomin, wlo, t),
                window_hi(bark, himin, whi, t),
            ),
        0 <= i <= j < bark.len(),
    ensures
        unpack_lo(table[i] as int) <= unpack_lo(table[j] as int),
        unpack_hi(table[i] as int) <= unpack_hi(table[j] as int),
        1 <= unpack_lo(table[i] as int) <= bark.len(),
        1 <= unpack_hi(table[i] as int) <= bark.len(),
        (lomin >= -1 || (wlo >= 0 && nondecreasing(bark))) ==> unpack_lo(table[i] as int) <= i + 1,
        (himin >= 1 || (whi > 0 && nondecreasing(bark))) ==> i + 1 <= unpack_hi(table[i] as int),
{
    lemma_window_in_block(bark, lomin, wlo, himin, whi, i);
    lemma_window_in_block(bark, lomin, wlo, himin, whi, j);
    lemma_windows_rise(bark, lomin, wlo, himin, whi, i, j);
    lemma_window_unpacks(window_lo(bark, lomin, wlo, i), window_hi(bark, himin, whi, i));
    lemma_window_unpacks(window_lo(bark, lomin, wlo, j), window_hi(bark, himin, whi, j));
    assert(table[i] == pack_window(window_lo(bark, lomin, wlo, i), window_hi(bark, himin, whi, i)));
    assert(table[j] == pack_window(window_lo(bark, lomin, wlo, j), window_hi(bark, himin, whi, j)));
    if lomin >= -1 || (wlo >= 0 && nondecreasing(bark)) {
        lemma_lo_covers(bark, lomin, wlo, i);
    }
    if himin >= 1 || (whi > 0 && nondecreasing(bark)) {
        lemma_hi_covers(bark, himin, whi, i);
    }
}

/// The lower bound of the window of a bin is the bin after it at most.
proof fn lemma_lo_covers(bark: Seq<i64>, lomin: int, wlo: int, i: int)
    requires
        0 <= i < bark.len(),
        lomin >= -1 || (wlo >= 0 && nondecreasing(bark)),
    ensures
        window_lo(bark, lomin, wlo, i) <= i + 1,
    decreases i,
{
    lemma_window_in_block(bark, lomin, wlo, 0, 0, i - 1);
    if i > 0 {
        lemma_lo_covers(bark, lomin, wlo, i - 1);
    }
    lemma_rest_lo_below(bark, lomin, wlo, i, window_lo(bark, lomin, wlo, i - 1));
}

/// The upper bound of the window of a bin is the bin after it at least.
proof fn lemma_hi_covers(bark: Seq<i64>, himin: int, whi: int, i: int)
    requires
        0 <= i < bark.len(),
        himin >= 1 || (whi > 0 && nondecreasing(bark)),
    ensures
        i + 1 <= window_hi(bark, himin, whi, i),
{
    lemma_window_in_block(bark, 0, 0, himin, whi, i - 1);
    let h = window_hi(bark, himin, whi, i);
    lemma_rest_hi(bark, himin, whi, i, window_hi(bark, himin, whi, i - 1));
    if h < bark.len() && himin < 1 {
        if h <= i {
            assert(bark[h] <= bark[i]);
        }
    }
}

} // verus!
