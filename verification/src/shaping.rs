//! The working curves: the measured tone curves of each band, spread over
//! the loudness levels, shaped round the masker, moved to a driving
//! amplitude of 0 dB, and held against the threshold of hearing.

use vstd::prelude::*;
use crate::consts::{EHMER_MAX, EHMER_OFFSET, MAX_ATH, P_BANDS, P_LEVELS, P_LEVEL_0};
use crate::curve::{attenuate_curve, max_curve, min_curve};
use crate::fixed::{max2, min2, min_i64, UNIT};
use crate::tables::{table_view, within, MaskingCurves, LEVEL_LIMIT};

verus! {

/// A level above every level that counts: 999 dB.
pub const LEVEL_CEILING: i64 = 999_000_000;

/// The breakpoint of the threshold of hearing that lies `k` eighth octaves
/// above offset `j` of `band`; past the end of the table it is the last one.
pub open spec fn ath_index(band: int, j: int, k: int) -> int {
    if j + k + 4 * band < MAX_ATH {
        j + k + 4 * band
    } else {
        MAX_ATH - 1
    }
}

/// The threshold of hearing over the half octave that starts at offset `j`
/// of `band`: the lowest of its four breakpoints there, and 999 dB at most.
pub open spec fn banded_ath(curves: MaskingCurves, band: int, j: int) -> int {
    min2(
        min2(
            min2(LEVEL_CEILING as int, curves.ath[ath_index(band, j, 0)] as int),
            curves.ath[ath_index(band, j, 1)] as int,
        ),
        min2(curves.ath[ath_index(band, j, 2)] as int, curves.ath[ath_index(band, j, 3)] as int),
    )
}

/// The measured level that a working level takes its curve from: the two
/// quietest working levels share the quietest measured one.
pub open spec fn measured_level(level: int) -> int {
    if level < 2 {
        0
    } else {
        level - 2
    }
}

/// What is added to a curve at offset `k`: the boost at the masker, plus the
/// decay for each eighth octave away from it, and nothing where that sum has
/// the sign opposite to the boost's.
pub open spec fn center_adjust(boost: int, decay: int, k: int) -> int {
    let d = if k <= EHMER_OFFSET { EHMER_OFFSET - k } else { k - EHMER_OFFSET };
    let adj = boost + d * decay;
    if (adj < 0 && boost > 0) || (adj > 0 && boost < 0) {
        0
    } else {
        adj
    }
}

/// A measured curve after shaping.
pub open spec fn shaped(curves: MaskingCurves, boost: int, decay: int, band: int, level: int, k: int) -> int {
    curves.tone_masks[band][measured_level(level)][k] + center_adjust(boost, decay, k)
}

/// The amount that a working curve of `level` is shifted by, for a band with
/// attenuation `att`: it moves the curve to a driving amplitude of 0 dB.
pub open spec fn work_attenuation(att: int, level: int) -> int {
    att + 100 * UNIT - max2(2, level) * 10 * UNIT - P_LEVEL_0 * UNIT
}

/// The amount that the threshold of hearing is shifted by at `level`.
pub open spec fn ath_attenuation(level: int) -> int {
    100 * UNIT - level * 10 * UNIT - P_LEVEL_0 * UNIT
}

/// The threshold of hearing as it applies at `level`.
pub open spec fn ath_curve(curves: MaskingCurves, band: int, level: int, k: int) -> int {
    banded_ath(curves, band, k) + ath_attenuation(level)
}

/// A shaped curve, shifted, and raised to the threshold of hearing where it
/// falls below it.
pub open spec fn overlaid(
    curves: MaskingCurves,
    att: int,
    boost: int,
    decay: int,
    band: int,
    level: int,
    k: int,
) -> int {
    max2(
        shaped(curves, boost, decay, band, level, k) + work_attenuation(att, level),
        ath_curve(curves, band, level, k),
    )
}

/// The lowest threshold of hearing of the levels up to `level`.
pub open spec fn ath_cascade(curves: MaskingCurves, band: int, level: int, k: int) -> int
    decreases level,
{
    if level <= 0 {
        ath_curve(curves, band, 0, k)
    } else {
        min2(ath_curve(curves, band, level, k), ath_cascade(curves, band, level - 1, k))
    }
}

/// The working curve of `band` at `level`, at offset `k`: the overlaid
/// curve, limited from the second level on by the cascaded threshold.
pub open spec fn work_value(
    curves: MaskingCurves,
    att: int,
    boost: int,
    decay: int,
    band: int,
    level: int,
    k: int,
) -> int {
    if level <= 0 {
        overlaid(curves, att, boost, decay, band, 0, k)
    } else {
        min2(overlaid(curves, att, boost, decay, band, level, k), ath_cascade(curves, band, level, k))
    }
}

/// The working curves of every band and level.
pub open spec fn work_table(curves: MaskingCurves, att: Seq<i64>, boost: int, decay: int) -> Seq<Seq<Seq<i64>>> {
    Seq::new(
        P_BANDS as nat,
        |b: int|
            Seq::new(
                P_LEVELS as nat,
                |l: int|
                    Seq::new(
                        EHMER_MAX as nat,
                        |k: int| work_value(curves, att[b] as int, boost, decay, b, l, k) as i64,
                    ),
            ),
    )
}

/// `work` holds one curve of `EHMER_MAX` levels for each band and level.
pub open spec fn is_curve_table(work: Seq<Seq<Seq<i64>>>) -> bool {
    &&& work.len() == P_BANDS
    &&& forall|b: int| 0 <= b < P_BANDS ==> (#[trigger] work[b]).len() == P_LEVELS
    &&& forall|b: int, l: int| 0 <= b < P_BANDS && 0 <= l < P_LEVELS ==> (#[trigger] work[b][l]).len() == EHMER_MAX
}

/// A louder level never has the higher curve.
pub open spec fn levels_descend(work: Seq<Seq<Seq<i64>>>) -> bool {
    forall|b: int, l: int, k: int|
        0 <= b < P_BANDS && 1 <= l < P_LEVELS && 0 <= k < EHMER_MAX ==> #[trigger] work[b][l][k] <= work[b][l
            - 1][k]
}

/// The working curve of a louder level lies on or below that of the level
/// before it, whatever the measured data and the tuning.
pub proof fn lemma_work_descends(
    curves: MaskingCurves,
    att: int,
    boost: int,
    decay: int,
    band: int,
    level: int,
    k: int,
)
    requires
        level >= 1,
    ensures
        work_value(curves, att, boost, decay, band, level, k) <= work_value(
            curves,
            att,
            boost,
            decay,
            band,
            level - 1,
            k,
        ),
{
    reveal_with_fuel(ath_cascade, 2);
}

/// The cascaded threshold of a level is the lowest of the thresholds of the
/// levels up to it: it is no higher than any of them, and it is one of them.
pub proof fn lemma_cascade_lowest(curves: MaskingCurves, band: int, level: int, k: int)
    requires
        0 <= level,
    ensures
        forall|l: int| 0 <= l <= level ==> ath_cascade(curves, band, level, k) <= #[trigger] ath_curve(curves, band, l, k),
        exists|l: int| 0 <= l <= level && ath_cascade(curves, band, level, k) == #[trigger] ath_curve(curves, band, l, k),
    decreases level,
{
    if level > 0 {
        lemma_cascade_lowest(curves, band, level - 1, k);
        let l = choose|l: int|
            0 <= l <= level - 1 && ath_cascade(curves, band, level - 1, k) == #[trigger] ath_curve(curves, band, l, k);
        if ath_cascade(curves, band, level, k) == ath_curve(curves, band, level, k) {
            assert(0 <= level <= level);
        } else {
            assert(0 <= l <= level && ath_cascade(curves, band, level, k) == ath_curve(curves, band, l, k));
        }
    } else {
        assert(ath_cascade(curves, band, 0, k) == ath_curve(curves, band, 0, k));
    }
}

/// The cascaded threshold of a level is the threshold of that level: the
/// threshold falls by 10 dB from each level to the next.
pub proof fn lemma_cascade_is_threshold(curves: MaskingCurves, band: int, level: int, k: int)
    requires
        0 <= level,
    ensures
        ath_cascade(curves, band, level, k) == ath_curve(curves, band, level, k),
    decreases level,
{
    if level > 0 {
        lemma_cascade_is_threshold(curves, band, level - 1, k);
    }
}

/// A band with more attenuation has no lower working curve: the attenuation
/// is added to the curve, and raising the curve to the threshold and
/// limiting it by the cascade both keep order.
pub proof fn lemma_work_rises_with_attenuation(
    curves: MaskingCurves,
    att1: int,
    att2: int,
    boost: int,
    decay: int,
    band: int,
    level: int,
    k: int,
)
    requires
        att1 <= att2,
    ensures
        work_value(curves, att1, boost, decay, band, level, k) <= work_value(
            curves,
            att2,
            boost,
            decay,
            band,
            level,
            k,
        ),
{
}

/// From the second level on, the working curve is the cascaded threshold
/// itself: the overlaid curve of a level is nowhere below the threshold of
/// that level, and so nowhere below the lowest threshold up to it.
pub proof fn lemma_work_is_cascade(
    curves: MaskingCurves,
    att: int,
    boost: int,
    decay: int,
    band: int,
    level: int,
    k: int,
)
    requires
        level >= 1,
    ensures
        work_value(curves, att, boost, decay, band, level, k) == ath_cascade(curves, band, level, k),
{
}

/// A copy of a curve.
fn copy_curve(c: &Vec<i64>) -> (r: Vec<i64>)
    ensures
        r@ == c@,
{
    let mut r: Vec<i64> = Vec::new();
    let mut i: usize = 0;
    while i < c.len()
        invariant
            i <= c@.len(),
            r@ == c@.take(i as int),
        decreases c@.len() - i,
    {
        r.push(c[i]);
        i += 1;
    }
    r
}

/// The level of the breakpoint `k` eighth octaves above offset `j` of `band`.
fn breakpoint_level(curves: &MaskingCurves, band: usize, j: usize, k: usize) -> (level: i64)
    requires
        band < P_BANDS,
        j < EHMER_MAX,
        k < 4,
    ensures
        level == curves.ath[ath_index(band as int, j as int, k as int)],
{
    let at: usize = j + k + 4 * band;
    if at < MAX_ATH {
        curves.ath[at]
    } else {
        curves.ath[MAX_ATH - 1]
    }
}

/// The threshold of hearing over each half octave of the window of `band`.
fn band_ath_floor(curves: &MaskingCurves, band: usize) -> (r: Vec<i64>)
    requires
        band < P_BANDS,
    ensures
        r@.len() == EHMER_MAX,
        forall|j: int| 0 <= j < EHMER_MAX ==> r@[j] == banded_ath(*curves, band as int, j),
{
    let mut r: Vec<i64> = Vec::new();
    let mut j: usize = 0;
    while j < EHMER_MAX
        invariant
            j <= EHMER_MAX,
            band < P_BANDS,
            r@.len() == j,
            forall|t: int| 0 <= t < j ==> r@[t] == banded_ath(*curves, band as int, t),
        decreases EHMER_MAX - j,
    {
        let low: i64 = min_i64(
            min_i64(min_i64(LEVEL_CEILING, breakpoint_level(curves, band, j, 0)), breakpoint_level(curves, band, j, 1)),
            min_i64(breakpoint_level(curves, band, j, 2), breakpoint_level(curves, band, j, 3)),
        );
        r.push(low);
        j += 1;
    }
    r
}

/// One measured curve of `band`, shaped for `level`.
fn shaped_curve(curves: &MaskingCurves, boost: i64, decay: i64, band: usize, level: usize) -> (r: Vec<i64>)
    requires
        curves.wf(),
        within(boost as int, LEVEL_LIMIT as int),
        within(decay as int, LEVEL_LIMIT as int),
        band < P_BANDS,
        level < P_LEVELS,
    ensures
        r@.len() == EHMER_MAX,
        forall|k: int| 0 <= k < EHMER_MAX ==> r@[k] == shaped(*curves, boost as int, decay as int, band as int, level as int, k),
{
    let from: usize = if level < 2 { 0 } else { level - 2 };
    let mut r: Vec<i64> = Vec::new();
    let mut k: usize = 0;
    while k < EHMER_MAX
        invariant
            k <= EHMER_MAX,
            curves.wf(),
            within(boost as int, LEVEL_LIMIT as int),
            within(decay as int, LEVEL_LIMIT as int),
            band < P_BANDS,
            level < P_LEVELS,
            from == measured_level(level as int),
            r@.len() == k,
            forall|t: int| 0 <= t < k ==> r@[t] == shaped(*curves, boost as int, decay as int, band as int, level as int, t),
        decreases EHMER_MAX - k,
    {
        let d: i64 = if k <= EHMER_OFFSET { (EHMER_OFFSET - k) as i64 } else { (k - EHMER_OFFSET) as i64 };
        assert(-39 * LEVEL_LIMIT <= d * decay <= 39 * LEVEL_LIMIT) by (nonlinear_arith)
            requires
                0 <= d <= 39,
                -LEVEL_LIMIT <= decay <= LEVEL_LIMIT,
        {
        }
        let mut adj: i64 = boost + d * decay;
        if (adj < 0 && boost > 0) || (adj > 0 && boost < 0) {
            adj = 0;
        }
        let m: i64 = curves.tone_masks[band][from][k];
        assert(within(curves.tone_masks[band as int][from as int][k as int] as int, LEVEL_LIMIT as int));
        r.push(m + adj);
        k += 1;
    }
    r
}

/// The working curves of one band, from the quietest level to the loudest.
fn band_curves(curves: &MaskingCurves, att: i64, boost: i64, decay: i64, band: usize) -> (w: Vec<Vec<i64>>)
    requires
        curves.wf(),
        within(att as int, LEVEL_LIMIT as int),
        within(boost as int, LEVEL_LIMIT as int),
        within(decay as int, LEVEL_LIMIT as int),
        band < P_BANDS,
    ensures
        w@.len() == P_LEVELS,
        forall|l: int| 0 <= l < P_LEVELS ==> (#[trigger] w@[l])@.len() == EHMER_MAX,
        forall|l: int, k: int|
            0 <= l < P_LEVELS && 0 <= k < EHMER_MAX ==> #[trigger] w@[l]@[k] == work_value(
                *curves,
                att as int,
                boost as int,
                decay as int,
                band as int,
                l,
                k,
            ),
{
    let floor = band_ath_floor(curves, band);
    let mut w: Vec<Vec<i64>> = Vec::new();
    let mut run: Vec<i64> = copy_curve(&floor);
    let mut level: usize = 0;
    while level < P_LEVELS
        invariant
            level <= P_LEVELS,
            curves.wf(),
            within(att as int, LEVEL_LIMIT as int),
            within(boost as int, LEVEL_LIMIT as int),
            within(decay as int, LEVEL_LIMIT as int),
            band < P_BANDS,
            floor@.len() == EHMER_MAX,
            forall|j: int| 0 <= j < EHMER_MAX ==> floor@[j] == banded_ath(*curves, band as int, j),
            w@.len() == level,
            forall|l: int| 0 <= l < level ==> (#[trigger] w@[l])@.len() == EHMER_MAX,
            forall|l: int, k: int|
                0 <= l < level && 0 <= k < EHMER_MAX ==> #[trigger] w@[l]@[k] == work_value(
                    *curves,
                    att as int,
                    boost as int,
                    decay as int,
                    band as int,
                    l,
                    k,
                ),
            run@.len() == EHMER_MAX,
            level > 0 ==> forall|k: int|
                0 <= k < EHMER_MAX ==> run@[k] == ath_cascade(*curves, band as int, level - 1, k),
        decreases P_LEVELS - level,
    {
        let mut c = shaped_curve(curves, boost, decay, band, level);
        let step: i64 = if level < 2 { 2 } else { level as i64 };
        let work_att: i64 = att + 100 * UNIT - step * 10 * UNIT - P_LEVEL_0 * UNIT;
        let ath_att: i64 = 100 * UNIT - (level as i64) * 10 * UNIT - P_LEVEL_0 * UNIT;
        assert(work_att == work_attenuation(att as int, level as int));
        assert(ath_att == ath_attenuation(level as int));
        proof {
            assert forall|k: int| 0 <= k < EHMER_MAX implies i64::MIN <= (#[trigger] c@[k]) + work_att
                <= i64::MAX by {
                lemma_shaped_bound(*curves, boost as int, decay as int, band as int, level as int, k);
            }
        }
        attenuate_curve(c.as_mut_slice(), work_att);
        let mut a = copy_curve(&floor);
        proof {
            assert forall|k: int| 0 <= k < EHMER_MAX implies i64::MIN <= (#[trigger] a@[k]) + ath_att
                <= i64::MAX by {
                lemma_banded_ath_bound(*curves, band as int, k);
            }
        }
        attenuate_curve(a.as_mut_slice(), ath_att);
        assert(forall|k: int| 0 <= k < EHMER_MAX ==> a@[k] == ath_curve(*curves, band as int, level as int, k));
        max_curve(c.as_mut_slice(), a.as_slice());
        assert(forall|k: int|
            0 <= k < EHMER_MAX ==> c@[k] == overlaid(
                *curves,
                att as int,
                boost as int,
                decay as int,
                band as int,
                level as int,
                k,
            ));
        if level > 0 {
            min_curve(a.as_mut_slice(), run.as_slice());
            min_curve(c.as_mut_slice(), a.as_slice());
        }
        assert(forall|k: int| 0 <= k < EHMER_MAX ==> a@[k] == ath_cascade(*curves, band as int, level as int, k));
        w.push(c);
        run = a;
        level += 1;
    }
    w
}

/// The working curves of every band.
pub fn working_curves(curves: &MaskingCurves, att: &[i64; P_BANDS], boost: i64, decay: i64) -> (work: Vec<
    Vec<Vec<i64>>,
>)
    requires
        curves.wf(),
        forall|b: int| 0 <= b < P_BANDS ==> within(#[trigger] att[b] as int, LEVEL_LIMIT as int),
        within(boost as int, LEVEL_LIMIT as int),
        within(decay as int, LEVEL_LIMIT as int),
    ensures
        table_view(&work) == work_table(*curves, att@, boost as int, decay as int),
        is_curve_table(table_view(&work)),
        levels_descend(table_view(&work)),
{
    let mut work: Vec<Vec<Vec<i64>>> = Vec::new();
    let mut band: usize = 0;
    while band < P_BANDS
        invariant
            band <= P_BANDS,
            curves.wf(),
            forall|b: int| 0 <= b < P_BANDS ==> within(#[trigger] att[b] as int, LEVEL_LIMIT as int),
            within(boost as int, LEVEL_LIMIT as int),
            within(decay as int, LEVEL_LIMIT as int),
            work@.len() == band,
            forall|b: int| 0 <= b < band ==> (#[trigger] work@[b])@.len() == P_LEVELS,
            forall|b: int, l: int|
                0 <= b < band && 0 <= l < P_LEVELS ==> (#[trigger] work@[b]@[l])@.len() == EHMER_MAX,
            forall|b: int, l: int, k: int|
                0 <= b < band && 0 <= l < P_LEVELS && 0 <= k < EHMER_MAX ==> #[trigger] work@[b]@[l]@[k]
                    == work_value(*curves, att[b] as int, boost as int, decay as int, b, l, k),
        decreases P_BANDS - band,
    {
        let w = band_curves(curves, att[band], boost, decay, band);
        work.push(w);
        band += 1;
    }
    proof {
        let view = table_view(&work);
        let want = work_table(*curves, att@, boost as int, decay as int);
        assert forall|b: int, l: int, k: int|
            0 <= b < P_BANDS && 0 <= l < P_LEVELS && 0 <= k < EHMER_MAX implies #[trigger] view[b][l][k]
            == want[b][l][k] by {
            assert(work@[b]@[l]@[k] == work_value(*curves, att[b] as int, boost as int, decay as int, b, l, k));
        }
        assert(view =~~= want);
        lemma_work_table_descends(*curves, att@, boost as int, decay as int);
    }
    work
}

/// The working curves descend from level to level, whatever the measured
/// data and the tuning, as long as every level fits an `i64`.
pub proof fn lemma_work_table_descends(curves: MaskingCurves, att: Seq<i64>, boost: int, decay: int)
    requires
        curves.wf(),
        att.len() == P_BANDS,
        forall|b: int| 0 <= b < P_BANDS ==> within(#[trigger] att[b] as int, LEVEL_LIMIT as int),
        within(boost, LEVEL_LIMIT as int),
        within(decay, LEVEL_LIMIT as int),
    ensures
        is_curve_table(work_table(curves, att, boost, decay)),
        levels_descend(work_table(curves, att, boost, decay)),
{
    let work = work_table(curves, att, boost, decay);
    assert forall|b: int, l: int, k: int|
        0 <= b < P_BANDS && 1 <= l < P_LEVELS && 0 <= k < EHMER_MAX implies #[trigger] work[b][l][k] <= work[b][l
        - 1][k] by {
        lemma_work_descends(curves, att[b] as int, boost, decay, b, l, k);
        lemma_work_value_fits(curves, att[b] as int, boost, decay, b, l, k);
        lemma_work_value_fits(curves, att[b] as int, boost, decay, b, l - 1, k);
    }
}

/// Every level of a working curve fits an `i64`.
pub proof fn lemma_work_value_fits(
    curves: MaskingCurves,
    att: int,
    boost: int,
    decay: int,
    band: int,
    level: int,
    k: int,
)
    requires
        curves.wf(),
        within(att, LEVEL_LIMIT as int),
        within(boost, LEVEL_LIMIT as int),
        within(decay, LEVEL_LIMIT as int),
        0 <= band < P_BANDS,
        0 <= level < P_LEVELS,
        0 <= k < EHMER_MAX,
    ensures
        i64::MIN <= work_value(curves, att, boost, decay, band, level, k) <= i64::MAX,
{
    lemma_shaped_bound(curves, boost, decay, band, level, k);
    lemma_cascade_fits(curves, band, level, k);
    lemma_banded_ath_bound(curves, band, k);
}

/// Every level of a cascaded threshold fits an `i64`.
proof fn lemma_cascade_fits(curves: MaskingCurves, band: int, level: int, k: int)
    requires
        curves.wf(),
        0 <= band < P_BANDS,
        0 <= level < P_LEVELS,
        0 <= k < EHMER_MAX,
    ensures
        i64::MIN <= ath_cascade(curves, band, level, k) <= i64::MAX,
    decreases level,
{
    lemma_banded_ath_bound(curves, band, k);
    if level > 0 {
        lemma_cascade_fits(curves, band, level - 1, k);
    }
}

/// The threshold over a half octave is within the limit of its breakpoints.
proof fn lemma_banded_ath_bound(curves: MaskingCurves, band: int, k: int)
    requires
        curves.wf(),
        0 <= band < P_BANDS,
        0 <= k < EHMER_MAX,
    ensures
        within(banded_ath(curves, band, k), LEVEL_LIMIT as int),
{
    assert(within(curves.ath[ath_index(band, k, 0)] as int, LEVEL_LIMIT as int));
    assert(within(curves.ath[ath_index(band, k, 1)] as int, LEVEL_LIMIT as int));
    assert(within(curves.ath[ath_index(band, k, 2)] as int, LEVEL_LIMIT as int));
    assert(within(curves.ath[ath_index(band, k, 3)] as int, LEVEL_LIMIT as int));
}

/// A shaped curve stays within 41 times the limit: the mask, the boost, and
/// 39 times the decay.
proof fn lemma_shaped_bound(curves: MaskingCurves, boost: int, decay: int, band: int, level: int, k: int)
    requires
        curves.wf(),
        within(boost, LEVEL_LIMIT as int),
        within(decay, LEVEL_LIMIT as int),
        0 <= band < P_BANDS,
        0 <= level < P_LEVELS,
        0 <= k < EHMER_MAX,
    ensures
        within(shaped(curves, boost, decay, band, level, k), 41 * LEVEL_LIMIT),
{
    let d = if k <= EHMER_OFFSET { EHMER_OFFSET - k } else { k - EHMER_OFFSET };
    assert(-39 * LEVEL_LIMIT <= d * decay <= 39 * LEVEL_LIMIT) by (nonlinear_arith)
        requires
            0 <= d <= 39,
            -LEVEL_LIMIT <= decay <= LEVEL_LIMIT,
    {
    }
    assert(within(curves.tone_masks[band][measured_level(level)][k] as int, LEVEL_LIMIT as int));
}

} // verus!
