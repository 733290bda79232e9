//! The data that the model is built from: measured masking curves, and the
//! place of each bin on the octave and bark scales.

use vstd::prelude::*;
use crate::consts::{EHMER_MAX, MAX_ATH, P_BANDS, P_MEASURED};

verus! {

/// Largest magnitude of a level, in dB, that the arithmetic is proved for.
pub const LEVEL_LIMIT: i64 = 10_000_000_000;

/// Largest position in bins that a scale may hold.
pub const BIN_LIMIT: i64 = 2_000_000_000_000_000;

/// Largest magnitude of a position on the octave scale: 32 octaves.
pub const OCTAVE_LIMIT: i64 = 32_000_000;

/// Largest magnitude of a position on the bark scale.
pub const BARK_LIMIT: i64 = 1_000_000_000_000;

/// Entries of [`BinScale::octave_bin`]: sixteenth octaves from 33 below
/// 62.5 Hz to 207 above it.
pub const OCTAVE_STEPS: usize = 241;

/// Index in [`BinScale::octave_bin`] of 62.5 Hz.
pub const OCTAVE_ORIGIN: usize = 33;

/// Largest number of bins of a block: a bark window packs two bin indices
/// into one `i32`.
pub const MAX_BINS: usize = 32768;

/// `|x| <= limit`.
pub open spec fn within(x: int, limit: int) -> bool {
    -limit <= x <= limit
}

/// Measured masking data, in millionths of a dB.
pub struct MaskingCurves {
    /// Absolute threshold of hearing, one level per eighth octave, the first
    /// at 15.625 Hz.
    pub ath: [i64; MAX_ATH],
    /// Masking by a pure tone: `tone_masks[band][measured level][offset]`,
    /// bands half an octave apart from 62.5 Hz, levels 10 dB apart, offsets
    /// an eighth octave apart with the tone at `EHMER_OFFSET`.
    pub tone_masks: [[[i64; EHMER_MAX]; P_MEASURED]; P_BANDS],
}

impl MaskingCurves {
    /// Every level is within `LEVEL_LIMIT`.
    pub open spec fn wf(&self) -> bool {
        &&& forall|i: int| 0 <= i < MAX_ATH ==> within(#[trigger] self.ath[i] as int, LEVEL_LIMIT as int)
        &&& forall|b: int, l: int, k: int|
            0 <= b < P_BANDS && 0 <= l < P_MEASURED && 0 <= k < EHMER_MAX ==> within(
                #[trigger] self.tone_masks[b][l][k] as int,
                LEVEL_LIMIT as int,
            )
    }
}

/// Where the bins of one block size lie on the logarithmic frequency
/// scales, for one sample rate.
///
/// A bin is `rate / (2 n)` Hz wide. A frequency `f` lies `log2(f / 62.5 Hz)`
/// octaves above 62.5 Hz. The bark scale is read at whole numbers of Hz: bin
/// `i` stands at `i * floor(rate / (2 n))` Hz on it. All positions are in
/// millionths.
pub struct BinScale {
    /// Position in bins of the frequency `62.5 Hz * 2^((s - 33) / 16)`, for
    /// `s` in `0..OCTAVE_STEPS`.
    pub octave_bin: Vec<i64>,
    /// Octaves above 62.5 Hz of the frequency a quarter bin above the lower
    /// edge of bin `i`, for `i` in `0..=n`.
    pub bin_octave: Vec<i64>,
    /// Octaves above 62.5 Hz of the center of bin `i`, for `i` in `0..n`.
    pub center_octave: Vec<i64>,
    /// Bark of the frequency `i * floor(rate / (2 n))` Hz, for `i` in
    /// `0..n`: the lower edge of bin `i` where a bin is a whole number of Hz
    /// wide, and a frequency at or below it otherwise.
    pub bin_bark: Vec<i64>,
}

impl BinScale {
    /// The tables have the lengths that a block of `n` bins asks for, and
    /// hold positions within the limits.
    pub open spec fn wf(&self, n: int) -> bool {
        &&& is_octave_table(self.octave_bin@)
        &&& self.bin_octave@.len() == n + 1
        &&& self.center_octave@.len() == n
        &&& self.bin_bark@.len() == n
        &&& forall|i: int| 0 <= i <= n ==> within(#[trigger] self.bin_octave@[i] as int, OCTAVE_LIMIT as int)
        &&& forall|i: int| 0 <= i < n ==> within(#[trigger] self.center_octave@[i] as int, OCTAVE_LIMIT as int)
        &&& forall|i: int| 0 <= i < n ==> within(#[trigger] self.bin_bark@[i] as int, BARK_LIMIT as int)
    }
}

/// `tbl` has one position in bins for each sixteenth octave, none of them
/// negative or beyond `BIN_LIMIT`.
pub open spec fn is_octave_table(tbl: Seq<i64>) -> bool {
    &&& tbl.len() == OCTAVE_STEPS
    &&& forall|s: int| 0 <= s < OCTAVE_STEPS ==> 0 <= #[trigger] tbl[s] <= BIN_LIMIT
}

/// A table of curves as a sequence: `table_view(t)[b][l]` is the curve of
/// band `b` at level `l`.
pub open spec fn table_view(t: &Vec<Vec<Vec<i64>>>) -> Seq<Seq<Seq<i64>>> {
    Seq::new(t@.len(), |b: int| Seq::new(t@[b]@.len(), |l: int| t@[b]@[l]@))
}

/// A table of rows as a sequence of sequences.
pub open spec fn rows_view(t: &Vec<Vec<i64>>) -> Seq<Seq<i64>> {
    Seq::new(t@.len(), |c: int| t@[c]@)
}

/// No entry is smaller than the one before it.
pub open spec fn nondecreasing(s: Seq<i64>) -> bool {
    forall|i: int, j: int| 0 <= i <= j < s.len() ==> s[i] <= s[j]
}

/// Whether every entry of `s` lies between `lo` and `hi`.
pub fn all_between(s: &[i64], lo: i64, hi: i64) -> (ok: bool)
    ensures
        ok == (forall|i: int| 0 <= i < s@.len() ==> lo <= #[trigger] s@[i] <= hi),
{
    let mut i: usize = 0;
    while i < s.len()
        invariant
            i <= s@.len(),
            forall|t: int| 0 <= t < i ==> lo <= #[trigger] s@[t] <= hi,
        decreases s@.len() - i,
    {
        if s[i] < lo || s[i] > hi {
            return false;
        }
        i += 1;
    }
    true
}

impl MaskingCurves {
    /// Whether every level is within `LEVEL_LIMIT`.
    pub fn is_valid(&self) -> (ok: bool)
        ensures
            ok == self.wf(),
    {
        if !all_between(self.ath.as_slice(), -LEVEL_LIMIT, LEVEL_LIMIT) {
            return false;
        }
        let mut b: usize = 0;
        while b < P_BANDS
            invariant
                b <= P_BANDS,
                forall|i: int| 0 <= i < MAX_ATH ==> within(#[trigger] self.ath[i] as int, LEVEL_LIMIT as int),
                forall|t: int, l: int, k: int|
                    0 <= t < b && 0 <= l < P_MEASURED && 0 <= k < EHMER_MAX ==> within(
                        #[trigger] self.tone_masks[t][l][k] as int,
                        LEVEL_LIMIT as int,
                    ),
            decreases P_BANDS - b,
        {
            let mut l: usize = 0;
            while l < P_MEASURED
                invariant
                    l <= P_MEASURED,
                    b < P_BANDS,
                    forall|t: int, k: int|
                        0 <= t < l && 0 <= k < EHMER_MAX ==> within(
                            #[trigger] self.tone_masks[b as int][t][k] as int,
                            LEVEL_LIMIT as int,
                        ),
                decreases P_MEASURED - l,
            {
                if !all_between(self.tone_masks[b][l].as_slice(), -LEVEL_LIMIT, LEVEL_LIMIT) {
                    proof {
                        let k = choose|k: int|
                            0 <= k < EHMER_MAX && !(-LEVEL_LIMIT <= #[trigger] self.tone_masks[b as int][l as int][k]
                                <= LEVEL_LIMIT);
                        assert(!within(self.tone_masks[b as int][l as int][k] as int, LEVEL_LIMIT as int));
                    }
                    return false;
                }
                l += 1;
            }
            b += 1;
        }
        true
    }
}

impl BinScale {
    /// Whether the tables have the lengths that a block of `n` bins asks
    /// for, and hold positions within the limits.
    pub fn is_valid(&self, n: usize) -> (ok: bool)
        ensures
            ok == self.wf(n as int),
    {
        let quarter_points: usize = self.bin_octave.len();
        if n == usize::MAX {
            return false;
        }
        self.octave_bin.len() == OCTAVE_STEPS && quarter_points == n + 1 && self.center_octave.len() == n
            && self.bin_bark.len() == n && all_between(self.octave_bin.as_slice(), 0, BIN_LIMIT) && all_between(
            self.bin_octave.as_slice(),
            -OCTAVE_LIMIT,
            OCTAVE_LIMIT,
        ) && all_between(self.center_octave.as_slice(), -OCTAVE_LIMIT, OCTAVE_LIMIT) && all_between(
            self.bin_bark.as_slice(),
            -BARK_LIMIT,
            BARK_LIMIT,
        )
    }
}

} // verus!
