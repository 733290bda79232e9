use vorbis_psy::consts::{EHMER_MAX, MAX_ATH, P_BANDS, P_LEVELS, P_MEASURED};
use vorbis_psy::curve::{attenuate_curve, max_curve, min_curve};
use vorbis_psy::shaping::working_curves;
use vorbis_psy::tables::MaskingCurves;

const DB: i64 = 1_000_000;

fn ramp(from: i64, step: i64, len: usize) -> Vec<i64> {
    (0..len).map(|i| from + step * i as i64).collect()
}

/// Masks that fall by 10 dB per measured level and 1 dB per eighth octave
/// from the masker, with a threshold of hearing of `ath` dB everywhere.
fn sample_curves(ath: i64) -> MaskingCurves {
    let mut tone_masks = [[[0i64; EHMER_MAX]; P_MEASURED]; P_BANDS];
    for b in 0..P_BANDS {
        for l in 0..P_MEASURED {
            for k in 0..EHMER_MAX {
                let away = (k as i64 - 16).abs();
                tone_masks[b][l][k] = (-20 - 10 * l as i64 - away + b as i64) * DB;
            }
        }
    }
    MaskingCurves { ath: [ath * DB; MAX_ATH], tone_masks }
}

#[test]
fn min_curve_keeps_the_lower_level() {
    let mut c = ramp(0, 2, EHMER_MAX);
    let c2 = ramp(55, -1, EHMER_MAX);
    min_curve(&mut c, &c2);
    assert_eq!(c[0], 0);
    assert_eq!(c[18], 36);
    assert_eq!(c[19], 36);
    assert_eq!(c[20], 35);
    assert_eq!(c[55], 0);
}

#[test]
fn max_curve_keeps_the_higher_level() {
    let mut c = ramp(0, 2, EHMER_MAX);
    let c2 = ramp(55, -1, EHMER_MAX);
    max_curve(&mut c, &c2);
    assert_eq!(c[0], 55);
    assert_eq!(c[18], 37);
    assert_eq!(c[19], 38);
    assert_eq!(c[55], 110);
}

#[test]
fn curve_operations_leave_what_lies_past_the_window() {
    let mut c = ramp(0, 1, EHMER_MAX + 3);
    let c2 = vec![-5i64; EHMER_MAX + 3];
    min_curve(&mut c, &c2);
    assert_eq!(c.len(), EHMER_MAX + 3);
    assert_eq!(c[55], -5);
    assert_eq!(c[56], 56);
    assert_eq!(c[58], 58);
    max_curve(&mut c, &vec![100i64; EHMER_MAX]);
    assert_eq!(c[0], 100);
    assert_eq!(c[57], 57);
    attenuate_curve(&mut c, 2 * DB);
    assert_eq!(c[0], 100 + 2 * DB);
    assert_eq!(c[55], 100 + 2 * DB);
    assert_eq!(c[56], 56);
    assert_eq!(c[57], 57);
}

#[test]
fn attenuate_curve_shifts_by_the_amount() {
    let mut c = ramp(-10 * DB, DB, EHMER_MAX);
    attenuate_curve(&mut c, 1_500_000);
    assert_eq!(c[0], -8_500_000);
    assert_eq!(c[10], 1_500_000);
    assert_eq!(c[13], 4_500_000);
    // the distance between two levels stays
    assert_eq!(c[13] - c[0], 13 * DB);
    let mut d = vec![3i64; EHMER_MAX];
    attenuate_curve(&mut d, -500_000);
    assert_eq!(d[0], -499_997);
    assert_eq!(d[55], -499_997);
}

#[test]
fn attenuate_curve_by_nothing_leaves_the_curve() {
    let mut c = ramp(DB, -7, EHMER_MAX);
    attenuate_curve(&mut c, 0);
    assert_eq!(c, ramp(DB, -7, EHMER_MAX));
    assert_eq!(c[0], DB);
}

#[test]
fn attenuate_curve_reaches_both_ends_of_the_range() {
    let mut c = vec![i64::MAX - 5; EHMER_MAX];
    attenuate_curve(&mut c, 5);
    assert_eq!(c[0], i64::MAX);
    let mut d = vec![-5i64; EHMER_MAX];
    attenuate_curve(&mut d, i64::MIN + 5);
    assert_eq!(d[55], i64::MIN);
}

#[test]
fn working_curves_have_the_shape_of_the_model() {
    let work = working_curves(&sample_curves(-24), &[0; P_BANDS], 0, 0);
    assert_eq!(work.len(), P_BANDS);
    for band in &work {
        assert_eq!(band.len(), P_LEVELS);
        for curve in band {
            assert_eq!(curve.len(), EHMER_MAX);
        }
    }
}

#[test]
fn working_curve_of_the_quietest_level_is_shaped_shifted_and_overlaid() {
    // what is added to the working curves at the two quietest levels: att + 100 - 20 - 30 = 0
    let att = [-50 * DB; P_BANDS];
    let work = working_curves(&sample_curves(-200), &att, 2 * DB, -500_000);
    // at the masker: -20 + 2 = -18 dB, above the threshold of -200 + 70 dB
    assert_eq!(work[0][0][16], -18 * DB);
    // two eighth octaves away: -22 + (2 - 1) = -21 dB
    assert_eq!(work[0][0][18], -21 * DB);
    assert_eq!(work[0][0][14], -21 * DB);
    // four away the boost is used up: -24 + 0
    assert_eq!(work[0][0][20], -24 * DB);
    // ten away the decay would turn the boost into a cut: nothing is added
    assert_eq!(work[0][0][26], -30 * DB);
    assert_eq!(work[0][0][0], -36 * DB);
    // band 3 lies 3 dB higher
    assert_eq!(work[3][0][16], -15 * DB);
}

#[test]
fn working_curve_is_shifted_by_the_attenuation_of_its_band() {
    let mut att = [-50 * DB; P_BANDS];
    att[4] = -43_500_000;
    att[9] = -61 * DB;
    let work = working_curves(&sample_curves(-200), &att, 0, 0);
    // masks at the masker: -20 + band
    assert_eq!(work[0][0][16], -20 * DB);
    assert_eq!(work[4][0][16], -16 * DB + 6_500_000);
    assert_eq!(work[9][0][16], -11 * DB - 11 * DB);
    assert_eq!(work[4][0][0], -32 * DB + 6_500_000);
}

#[test]
fn raising_the_attenuation_never_lowers_a_working_curve() {
    let curves = sample_curves(-70);
    let low = working_curves(&curves, &[-60 * DB; P_BANDS], DB, -100_000);
    let mut att = [-60 * DB; P_BANDS];
    for b in 0..P_BANDS {
        att[b] += b as i64 * DB;
    }
    let high = working_curves(&curves, &att, DB, -100_000);
    let mut raised = 0;
    for b in 0..P_BANDS {
        for l in 0..P_LEVELS {
            for k in 0..EHMER_MAX {
                assert!(low[b][l][k] <= high[b][l][k]);
                if low[b][l][k] < high[b][l][k] {
                    raised += 1;
                }
            }
        }
    }
    assert!(raised > 0);
    // band 16 at the masker: -4 - 10 + 1 = -13 dB against -4 + 6 + 1 = 3 dB, the threshold at 0 dB
    assert_eq!(low[16][0][16], 0);
    assert_eq!(high[16][0][16], 3 * DB);
}

#[test]
fn working_curve_takes_a_cut_where_the_boost_is_negative() {
    let att = [-50 * DB; P_BANDS];
    let work = working_curves(&sample_curves(-200), &att, -2 * DB, 500_000);
    assert_eq!(work[0][0][16], -22 * DB);
    assert_eq!(work[0][0][18], -23 * DB);
    // the decay would turn the cut into a boost: nothing is added
    assert_eq!(work[0][0][26], -30 * DB);
}

#[test]
fn working_curve_is_raised_to_the_threshold_of_hearing() {
    // threshold of -80 dB plus 70: -10 dB at the quietest level
    let att = [-50 * DB; P_BANDS];
    let work = working_curves(&sample_curves(-80), &att, 0, 0);
    assert_eq!(work[0][0][16], -10 * DB);
    assert_eq!(work[5][0][0], -10 * DB);
    // the mask of band 16 at the masker, -4 dB, lies above it
    assert_eq!(work[16][0][16], -4 * DB);
}

#[test]
fn louder_levels_are_limited_by_the_cascaded_threshold() {
    let att = [-50 * DB; P_BANDS];
    let work = working_curves(&sample_curves(-200), &att, 2 * DB, -500_000);
    // threshold at level 0: -200 + 70; it falls by 10 dB with each level
    assert_eq!(work[0][1][16], -140 * DB);
    assert_eq!(work[0][2][16], -150 * DB);
    assert_eq!(work[0][7][16], -200 * DB);
    let up = working_curves(&sample_curves(-80), &att, 0, 0);
    assert_eq!(up[0][1][16], -20 * DB);
    assert_eq!(up[0][2][16], -30 * DB);
    assert_eq!(up[0][7][16], -80 * DB);
}

#[test]
fn working_curves_use_the_lowest_threshold_of_the_half_octave() {
    let mut curves = sample_curves(-80);
    // breakpoints 7..=10 cover offset 3 of band 1, breakpoints 10..=13 offset 6
    curves.ath[10] = -90 * DB;
    let att = [-50 * DB; P_BANDS];
    let work = working_curves(&curves, &att, 0, 0);
    // masks of band 1 at offset 4: -20 - 12 + 1 = -31 dB, below -90 + 70
    assert_eq!(work[1][0][4], -20 * DB);
    assert_eq!(work[1][1][4], -30 * DB);
    assert_eq!(work[1][1][3], -30 * DB);
    assert_eq!(work[1][1][6], -30 * DB);
    assert_eq!(work[1][1][7], -20 * DB);
    assert_eq!(work[1][1][2], -20 * DB);
    assert_eq!(work[2][1][0], -30 * DB);
}

#[test]
fn working_curves_hold_the_last_breakpoint_past_the_table() {
    let mut curves = sample_curves(-80);
    curves.ath[MAX_ATH - 1] = -90 * DB;
    let att = [-50 * DB; P_BANDS];
    let work = working_curves(&curves, &att, 0, 0);
    // band 16 starts at breakpoint 64: offsets from 20 on reach the last breakpoint
    assert_eq!(work[16][1][19], -20 * DB);
    assert_eq!(work[16][1][20], -30 * DB);
    assert_eq!(work[16][1][30], -30 * DB);
    assert_eq!(work[16][1][55], -30 * DB);
}

#[test]
fn working_curves_never_rise_with_the_level() {
    let mut curves = sample_curves(-7);
    for i in 0..MAX_ATH {
        curves.ath[i] = (i as i64 % 13 - 6) * DB;
    }
    let mut att = [0i64; P_BANDS];
    for b in 0..P_BANDS {
        att[b] = (b as i64 - 60) * DB;
    }
    let work = working_curves(&curves, &att, 3 * DB, -250_000);
    for b in 0..P_BANDS {
        for l in 1..P_LEVELS {
            for k in 0..EHMER_MAX {
                assert!(work[b][l][k] <= work[b][l - 1][k]);
            }
        }
    }
}
