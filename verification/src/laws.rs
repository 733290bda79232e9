//! What holds of every lookup, whatever it was built from.

use vstd::prelude::*;
use crate::ath::{lemma_ath_monotone_on_line, on_line, ATH_LIFT};
use crate::bark::{lemma_bark_windows_cover, unpack_hi, unpack_lo};
use crate::consts::{EHMER_MAX, MAX_ATH, P_BANDS, P_LEVELS, P_NOISECURVES, TONE_ROW};
use crate::fixed::UNIT;
use crate::noise::{
    half_octave_position, lemma_noise_offset_clamped, lemma_noise_offset_linear, lemma_noise_offset_rises,
    LAST_HALF_OCTAVE,
};
use crate::psy::{VorbisInfoPsy, VorbisInfoPsyGlobal, VorbisLookPsy};
use crate::resample::{
    fenceposts_enclose, is_tone_row, is_tone_table, lemma_row_fenceposts, lemma_tone_level_descends,
    lemma_tone_level_ordered,
};
use crate::shaping::{
    lemma_work_rises_with_attenuation, lemma_work_table_descends, lemma_work_value_fits, work_table,
};
use crate::tables::{nondecreasing, rows_view, table_view, BinScale, MaskingCurves};

verus! {

/// The row of `band` at `level` of a table of tone curves is the one that
/// the view of the table shows.
proof fn lemma_tone_view(
    table: &Vec<Vec<Vec<i64>>>,
    work: Seq<Seq<Seq<i64>>>,
    tbl: Seq<i64>,
    n: int,
    rate: int,
    band: int,
    level: int,
)
    requires
        is_tone_table(table_view(table), work, tbl, n, rate),
        0 <= band < P_BANDS,
        0 <= level < P_LEVELS,
    ensures
        table@.len() == P_BANDS,
        table@[band]@.len() == P_LEVELS,
        table_view(table)[band][level] == table@[band]@[level]@,
        is_tone_row(table@[band]@[level]@, work, tbl, n, rate, band, level),
{
    let view = table_view(table);
    assert(view.len() == P_BANDS);
    assert(view[band].len() == P_LEVELS);
    assert(is_tone_row(view[band][level], work, tbl, n, rate, band, level));
}

/// A tone-curve row is determined by the working curves, the scale, the
/// block and the place of the row.
pub proof fn lemma_tone_row_determined(
    r1: Seq<i64>,
    r2: Seq<i64>,
    work: Seq<Seq<Seq<i64>>>,
    tbl: Seq<i64>,
    n: int,
    rate: int,
    band: int,
    level: int,
)
    requires
        is_tone_row(r1, work, tbl, n, rate, band, level),
        is_tone_row(r2, work, tbl, n, rate, band, level),
    ensures
        r1 == r2,
{
    let l1 = r1.subrange(2, TONE_ROW as int);
    let l2 = r2.subrange(2, TONE_ROW as int);
    assert forall|j: int| 0 <= j < EHMER_MAX implies l1[j] == l2[j] by {
        assert(r1[j + 2] == r2[j + 2]);
    }
    assert(l1 =~= l2);
    assert forall|e: int| 0 <= e < TONE_ROW implies r1[e] == r2[e] by {
        if e >= 2 {
            assert(r1[(e - 2) + 2] == r2[(e - 2) + 2]);
        }
    }
    assert(r1 =~= r2);
}

/// The same tuning, measured data, scale, block size and sample rate give
/// the same lookup: two lookups built from them agree in every scalar and
/// in every entry of every table.
pub proof fn lemma_lookup_determined(
    a: VorbisLookPsy,
    b: VorbisLookPsy,
    info: VorbisInfoPsy,
    global: VorbisInfoPsyGlobal,
    n: int,
    rate: int,
    curves: MaskingCurves,
    scale: BinScale,
)
    requires
        a.built_from(info, global, n, rate, curves, scale),
        b.built_from(info, global, n, rate, curves, scale),
    ensures
        a.n == b.n,
        a.rate == b.rate,
        *a.vorbis_info_phy == *b.vorbis_info_phy,
        a.eighth_octave_lines == b.eighth_octave_lines,
        a.shiftoc == b.shiftoc,
        a.firstoc == b.firstoc,
        a.total_octave_lines == b.total_octave_lines,
        a.m_val == b.m_val,
        a.ath@ == b.ath@,
        a.octave@ == b.octave@,
        a.bark@ == b.bark@,
        table_view(&a.tonecurves) == table_view(&b.tonecurves),
        rows_view(&a.noiseoffset) == rows_view(&b.noiseoffset),
{
    assert(a.ath@ =~= b.ath@);
    assert(a.octave@ =~= b.octave@);
    assert(a.bark@ =~= b.bark@);
    let ta = table_view(&a.tonecurves);
    let tb = table_view(&b.tonecurves);
    let work = work_table(curves, info.toneatt@, info.tone_centerboost as int, info.tone_decay as int);
    assert forall|band: int, level: int| 0 <= band < P_BANDS && 0 <= level < P_LEVELS implies #[trigger] ta[band][level]
        == tb[band][level] by {
        lemma_tone_row_determined(ta[band][level], tb[band][level], work, scale.octave_bin@, n, rate, band, level);
    }
    assert forall|band: int| 0 <= band < P_BANDS implies #[trigger] ta[band] == tb[band] by {
        assert(ta[band].len() == P_LEVELS);
        assert(tb[band].len() == P_LEVELS);
        assert forall|level: int| 0 <= level < P_LEVELS implies ta[band][level] == tb[band][level] by {
        }
        assert(ta[band] =~= tb[band]);
    }
    assert(ta =~= tb);
    let na = rows_view(&a.noiseoffset);
    let nb = rows_view(&b.noiseoffset);
    assert forall|c: int| 0 <= c < P_NOISECURVES implies #[trigger] na[c] == nb[c] by {
        assert(na[c].len() == nb[c].len());
        assert forall|i: int| 0 <= i < na[c].len() implies na[c][i] == nb[c][i] by {
        }
        assert(na[c] =~= nb[c]);
    }
    assert(na =~= nb);
}


/// The tables have the shape of the model: a row of two fenceposts and
/// `EHMER_MAX` levels for each of the `P_BANDS` bands at each of the
/// `P_LEVELS` levels, a row of `n` offsets for each of the `P_NOISECURVES`
/// noise curves, and one entry for each bin in the tables by bin.
pub proof fn lemma_lookup_shape(
    look: VorbisLookPsy,
    info: VorbisInfoPsy,
    global: VorbisInfoPsyGlobal,
    n: int,
    rate: int,
    curves: MaskingCurves,
    scale: BinScale,
)
    requires
        VorbisLookPsy::can_build(info, global, n, rate, curves, scale),
        look.built_from(info, global, n, rate, curves, scale),
    ensures
        look.tonecurves@.len() == P_BANDS,
        forall|b: int| 0 <= b < P_BANDS ==> (#[trigger] look.tonecurves@[b])@.len() == P_LEVELS,
        forall|b: int, l: int|
            0 <= b < P_BANDS && 0 <= l < P_LEVELS ==> (#[trigger] look.tonecurves@[b]@[l])@.len() == EHMER_MAX + 2,
        look.noiseoffset@.len() == P_NOISECURVES,
        forall|c: int| 0 <= c < P_NOISECURVES ==> (#[trigger] look.noiseoffset@[c])@.len() == n,
        look.ath@.len() == n,
        look.octave@.len() == n,
        look.bark@.len() == n,
{
    let work = work_table(curves, info.toneatt@, info.tone_centerboost as int, info.tone_decay as int);
    assert forall|b: int, l: int| 0 <= b < P_BANDS && 0 <= l < P_LEVELS implies (#[trigger] look.tonecurves@[b]@[l])@.len()
        == EHMER_MAX + 2 && look.tonecurves@[b]@.len() == P_LEVELS by {
        lemma_tone_view(&look.tonecurves, work, scale.octave_bin@, n, rate, b, l);
    }
    assert forall|b: int| 0 <= b < P_BANDS implies (#[trigger] look.tonecurves@[b])@.len() == P_LEVELS by {
        lemma_tone_view(&look.tonecurves, work, scale.octave_bin@, n, rate, b, 0);
    }
    lemma_tone_view(&look.tonecurves, work, scale.octave_bin@, n, rate, 0, 0);
    let rows = rows_view(&look.noiseoffset);
    assert(rows.len() == P_NOISECURVES);
    assert forall|c: int| 0 <= c < P_NOISECURVES implies (#[trigger] look.noiseoffset@[c])@.len() == n by {
        assert(rows[c] == look.noiseoffset@[c]@);
    }
}

/// The cascade: at every offset of every band, the tone curve of a louder
/// level lies on or below that of the level before it.
pub proof fn lemma_lookup_levels_descend(
    look: VorbisLookPsy,
    info: VorbisInfoPsy,
    global: VorbisInfoPsyGlobal,
    n: int,
    rate: int,
    curves: MaskingCurves,
    scale: BinScale,
    band: int,
    level: int,
    k: int,
)
    requires
        VorbisLookPsy::can_build(info, global, n, rate, curves, scale),
        look.built_from(info, global, n, rate, curves, scale),
        0 <= band < P_BANDS,
        1 <= level < P_LEVELS,
        0 <= k < EHMER_MAX,
    ensures
        look.tonecurves@[band]@[level]@[k + 2] <= look.tonecurves@[band]@[level - 1]@[k + 2],
{
    let work = work_table(curves, info.toneatt@, info.tone_centerboost as int, info.tone_decay as int);
    lemma_work_table_descends(curves, info.toneatt@, info.tone_centerboost as int, info.tone_decay as int);
    lemma_tone_view(&look.tonecurves, work, scale.octave_bin@, n, rate, band, level);
    lemma_tone_view(&look.tonecurves, work, scale.octave_bin@, n, rate, band, level - 1);
    lemma_tone_level_descends(work, scale.octave_bin@, n, rate, band, level, k);
}

/// In every row of the tone curves the fenceposts enclose the masker: the
/// first is not negative and not above the masker's offset, the second not
/// below it and inside the window.
pub proof fn lemma_lookup_fenceposts(
    look: VorbisLookPsy,
    info: VorbisInfoPsy,
    global: VorbisInfoPsyGlobal,
    n: int,
    rate: int,
    curves: MaskingCurves,
    scale: BinScale,
    band: int,
    level: int,
)
    requires
        VorbisLookPsy::can_build(info, global, n, rate, curves, scale),
        look.built_from(info, global, n, rate, curves, scale),
        0 <= band < P_BANDS,
        0 <= level < P_LEVELS,
    ensures
        fenceposts_enclose(look.tonecurves@[band]@[level]@),
{
    let work = work_table(curves, info.toneatt@, info.tone_centerboost as int, info.tone_decay as int);
    lemma_tone_view(&look.tonecurves, work, scale.octave_bin@, n, rate, band, level);
    lemma_row_fenceposts(look.tonecurves@[band]@[level]@, work, scale.octave_bin@, n, rate, band, level);
}

/// The bark windows, unpacked, lie in the block and do not fall from a bin
/// to a later one. A window holds its bin from below where the lower cursor
/// may come no nearer than one bin above the bin, and from above where the
/// upper window is one bin wide at least; either also where the bark scale
/// rises and the window has a width in bark (the lower one may have none).
pub proof fn lemma_lookup_windows(
    look: VorbisLookPsy,
    info: VorbisInfoPsy,
    global: VorbisInfoPsyGlobal,
    n: int,
    rate: int,
    curves: MaskingCurves,
    scale: BinScale,
    i: int,
    j: int,
)
    requires
        VorbisLookPsy::can_build(info, global, n, rate, curves, scale),
        look.built_from(info, global, n, rate, curves, scale),
        0 <= i <= j < n,
    ensures
        1 <= unpack_lo(look.bark@[i] as int) <= n,
        1 <= unpack_hi(look.bark@[i] as int) <= n,
        unpack_lo(look.bark@[i] as int) <= unpack_lo(look.bark@[j] as int),
        unpack_hi(look.bark@[i] as int) <= unpack_hi(look.bark@[j] as int),
        info.noisewindowlomin >= -1 || (info.noisewindowlo >= 0 && nondecreasing(scale.bin_bark@)) ==> unpack_lo(
            look.bark@[i] as int,
        ) <= i + 1,
        info.noisewindowhimin >= 1 || (info.noisewindowhi > 0 && nondecreasing(scale.bin_bark@)) ==> i + 1
            <= unpack_hi(look.bark@[i] as int),
{
    lemma_bark_windows_cover(
        look.bark@,
        scale.bin_bark@,
        info.noisewindowlomin as int,
        info.noisewindowlo as int,
        info.noisewindowhimin as int,
        info.noisewindowhi as int,
        i,
        j,
    );
}

/// Over the bins on the line between two breakpoints the threshold of
/// hearing moves one way only, from the level of the first breakpoint
/// towards that of the second, both lifted by 100 dB.
pub proof fn lemma_lookup_ath_monotone(
    look: VorbisLookPsy,
    info: VorbisInfoPsy,
    global: VorbisInfoPsyGlobal,
    n: int,
    rate: int,
    curves: MaskingCurves,
    scale: BinScale,
    i: int,
    b1: int,
    b2: int,
)
    requires
        VorbisLookPsy::can_build(info, global, n, rate, curves, scale),
        look.built_from(info, global, n, rate, curves, scale),
        0 <= i < MAX_ATH - 1,
        on_line(scale.octave_bin@, n, i, b1),
        on_line(scale.octave_bin@, n, i, b2),
        b1 <= b2,
    ensures
        0 <= b1 <= b2 < n,
        curves.ath[i] <= curves.ath[i + 1] ==> curves.ath[i] + ATH_LIFT <= look.ath@[b1] <= look.ath@[b2]
            <= curves.ath[i + 1] + ATH_LIFT,
        curves.ath[i] >= curves.ath[i + 1] ==> curves.ath[i] + ATH_LIFT >= look.ath@[b1] >= look.ath@[b2]
            >= curves.ath[i + 1] + ATH_LIFT,
{
    crate::ath::lemma_cursor_rises(scale.octave_bin@, n, 0, i);
    crate::ath::lemma_cursor_rises(scale.octave_bin@, n, i + 1, i + 1);
    lemma_ath_monotone_on_line(curves.ath@, scale.octave_bin@, n, i, b1, b2);
}

/// Where the offsets of the bands of a noise curve lie on a straight line,
/// the offset of each bin is that line at the bin's position in half
/// octaves: there is no jump between a bin below a band and one above it.
/// Where the line rises, the offsets do not fall from a bin to one that
/// lies higher.
pub proof fn lemma_lookup_noise_linear(
    look: VorbisLookPsy,
    info: VorbisInfoPsy,
    global: VorbisInfoPsyGlobal,
    n: int,
    rate: int,
    curves: MaskingCurves,
    scale: BinScale,
    c: int,
    base: int,
    slope: int,
    i: int,
    j: int,
)
    requires
        VorbisLookPsy::can_build(info, global, n, rate, curves, scale),
        look.built_from(info, global, n, rate, curves, scale),
        0 <= c < P_NOISECURVES,
        forall|b: int| 0 <= b < P_BANDS ==> #[trigger] info.noiseoff[c][b] == base + slope * b,
        0 <= i < n,
        0 <= j < n,
    ensures
        look.noiseoffset@[c]@[i] == base + (slope * half_octave_position(scale.center_octave@[i] as int)) / (
        UNIT as int),
        slope >= 0 && scale.center_octave@[i] <= scale.center_octave@[j] ==> look.noiseoffset@[c]@[i]
            <= look.noiseoffset@[c]@[j],
{
    let rows = rows_view(&look.noiseoffset);
    assert(rows[c] == look.noiseoffset@[c]@);
    assert(rows[c][i] == look.noiseoffset@[c]@[i]);
    assert(rows[c][j] == look.noiseoffset@[c]@[j]);
    let raw = info.noiseoff[c]@;
    assert forall|b: int| 0 <= b < P_BANDS implies #[trigger] raw[b] == base + slope * b by {
        assert(info.noiseoff[c][b] == base + slope * b);
    }
    lemma_noise_offset_linear(raw, base, slope, scale.center_octave@[i] as int);
    if slope >= 0 && scale.center_octave@[i] <= scale.center_octave@[j] {
        lemma_noise_offset_rises(raw, base, slope, scale.center_octave@[i] as int, scale.center_octave@[j] as int);
    }
}

/// A bin whose center lies at or above the last band but one takes the
/// offset of that band, whatever the offset of the last band.
pub proof fn lemma_lookup_noise_clamped(
    look: VorbisLookPsy,
    info: VorbisInfoPsy,
    global: VorbisInfoPsyGlobal,
    n: int,
    rate: int,
    curves: MaskingCurves,
    scale: BinScale,
    c: int,
    i: int,
)
    requires
        VorbisLookPsy::can_build(info, global, n, rate, curves, scale),
        look.built_from(info, global, n, rate, curves, scale),
        0 <= c < P_NOISECURVES,
        0 <= i < n,
        2 * scale.center_octave@[i] >= LAST_HALF_OCTAVE,
    ensures
        look.noiseoffset@[c]@[i] == info.noiseoff[c][P_BANDS - 2],
{
    let rows = rows_view(&look.noiseoffset);
    assert(rows[c] == look.noiseoffset@[c]@);
    assert(rows[c][i] == look.noiseoffset@[c]@[i]);
    lemma_noise_offset_clamped(info.noiseoff[c]@, scale.center_octave@[i] as int);
}

/// Raising the attenuation of bands never lowers a tone curve: of two
/// lookups built from tunings that differ in the attenuation of the bands
/// alone, the one with no lower attenuation in any band has no lower level
/// at any offset of any band and level.
pub proof fn lemma_lookup_rises_with_attenuation(
    low: VorbisLookPsy,
    high: VorbisLookPsy,
    info_low: VorbisInfoPsy,
    info_high: VorbisInfoPsy,
    global: VorbisInfoPsyGlobal,
    n: int,
    rate: int,
    curves: MaskingCurves,
    scale: BinScale,
    band: int,
    level: int,
    k: int,
)
    requires
        VorbisLookPsy::can_build(info_low, global, n, rate, curves, scale),
        VorbisLookPsy::can_build(info_high, global, n, rate, curves, scale),
        low.built_from(info_low, global, n, rate, curves, scale),
        high.built_from(info_high, global, n, rate, curves, scale),
        info_low.tone_centerboost == info_high.tone_centerboost,
        info_low.tone_decay == info_high.tone_decay,
        forall|b: int| 0 <= b < P_BANDS ==> #[trigger] info_low.toneatt[b] <= info_high.toneatt[b],
        0 <= band < P_BANDS,
        0 <= level < P_LEVELS,
        0 <= k < EHMER_MAX,
    ensures
        low.tonecurves@[band]@[level]@[k + 2] <= high.tonecurves@[band]@[level]@[k + 2],
{
    let boost = info_low.tone_centerboost as int;
    let decay = info_low.tone_decay as int;
    let below = work_table(curves, info_low.toneatt@, boost, decay);
    let above = work_table(curves, info_high.toneatt@, boost, decay);
    lemma_work_table_descends(curves, info_low.toneatt@, boost, decay);
    lemma_work_table_descends(curves, info_high.toneatt@, boost, decay);
    assert forall|b: int, t: int| 0 <= b < P_BANDS && 0 <= t < EHMER_MAX implies #[trigger] below[b][level][t]
        <= above[b][level][t] by {
        assert(info_low.toneatt[b] <= info_high.toneatt[b]);
        lemma_work_rises_with_attenuation(
            curves,
            info_low.toneatt[b] as int,
            info_high.toneatt[b] as int,
            boost,
            decay,
            b,
            level,
            t,
        );
        lemma_work_value_fits(curves, info_low.toneatt[b] as int, boost, decay, b, level, t);
        lemma_work_value_fits(curves, info_high.toneatt[b] as int, boost, decay, b, level, t);
    }
    lemma_tone_level_ordered(below, level, above, level, scale.octave_bin@, n, rate, band, k);
    lemma_tone_view(&low.tonecurves, below, scale.octave_bin@, n, rate, band, level);
    lemma_tone_view(&high.tonecurves, above, scale.octave_bin@, n, rate, band, level);
}

} // verus!
