use vorbis_psy::consts::{EHMER_MAX, P_BANDS, P_LEVELS};
use vorbis_psy::resample::{resample_curves, source_bands, splat_curve, tone_row};

const STEPS: usize = 241;
const DB: i64 = 1_000_000;

/// A scale on which sixteenth-octave step `s` lies at bin `s / 2`.
fn half_bin_scale() -> Vec<i64> {
    (0..STEPS).map(|s| s as i64 * 500_000).collect()
}

/// Working curves that differ in every band, level and offset, falling with
/// the band and the level.
fn sample_work() -> Vec<Vec<Vec<i64>>> {
    (0..P_BANDS)
        .map(|k| {
            (0..P_LEVELS)
                .map(|m| {
                    (0..EHMER_MAX)
                        .map(|j| (10 - k as i64) * 1000 + j as i64 * (k as i64 + 1) - m as i64)
                        .collect()
                })
                .collect()
        })
        .collect()
}

#[test]
fn splat_renders_each_offset_over_its_bins() {
    let mut curve = vec![9i64; EHMER_MAX];
    curve[0] = 5;
    curve[1] = 3;
    curve[2] = 8;
    curve[3] = 1;
    let mut buf = vec![999i64; 10];
    // source band 0: offset j covers the bins j and j + 1
    splat_curve(&curve, &half_bin_scale(), 10, 0, &mut buf);
    assert_eq!(buf, vec![5, 3, 3, 1, 1, 9, 9, 9, 9, 9]);
}

#[test]
fn splat_keeps_what_was_lower() {
    let curve = vec![7i64; EHMER_MAX];
    let mut buf = vec![999, 2, 999, 7, 8, -4];
    splat_curve(&curve, &half_bin_scale(), 6, 0, &mut buf);
    assert_eq!(buf, vec![7, 2, 7, 7, 7, -4]);
}

#[test]
fn splat_fills_below_the_first_offset_and_above_the_last() {
    let mut curve = vec![50i64; EHMER_MAX];
    curve[0] = 11;
    curve[55] = 22;
    let mut buf = vec![999i64; 80];
    // source band 2: offset j covers the bins 8 + j and 9 + j
    splat_curve(&curve, &half_bin_scale(), 80, 2, &mut buf);
    for b in 0..=9 {
        assert_eq!(buf[b], 11, "bin {}", b);
    }
    for b in 10..=62 {
        assert_eq!(buf[b], 50, "bin {}", b);
    }
    for b in 63..80 {
        assert_eq!(buf[b], 22, "bin {}", b);
    }
}

#[test]
fn splat_on_a_scale_of_one_bin_gives_the_lowest_level_and_the_last() {
    let mut curve = vec![40i64; EHMER_MAX];
    curve[30] = -3;
    curve[55] = 17;
    let mut buf = vec![999i64; 4];
    splat_curve(&curve, &vec![0i64; STEPS], 4, 5, &mut buf);
    assert_eq!(buf, vec![-3, 17, 17, 17]);
}

#[test]
fn splat_into_no_bins_does_nothing() {
    let curve = vec![40i64; EHMER_MAX];
    let mut buf: Vec<i64> = Vec::new();
    splat_curve(&curve, &half_bin_scale(), 0, 0, &mut buf);
    assert!(buf.is_empty());
}

#[test]
fn source_bands_are_the_half_octaves_inside_the_bin() {
    let mut tbl = vec![0i64; STEPS];
    // band 6 at bin 1.45: the bin spans 344.5 Hz to 689 Hz at 44100 Hz and 64 bins
    tbl[8 * 6 + 33] = 1_450_000;
    // lower edge + 1 Hz = 5.53 * 62.5 Hz: 4.93 half octaves, rounded up 5
    // upper edge = 11.03 * 62.5 Hz: 6.93 half octaves, rounded down 6
    assert_eq!(source_bands(&tbl, 64, 44100, 6), (5, 6));
}

#[test]
fn source_bands_start_at_the_band_itself_at_the_latest() {
    let mut tbl = vec![0i64; STEPS];
    tbl[8 * 3 + 33] = 10_999_999;
    // lower edge: 55.14 * 62.5 Hz, 11.6 half octaves; upper: 60.6 * 62.5 Hz, 11.8
    assert_eq!(source_bands(&tbl, 64, 44100, 3), (3, 11));
    tbl[8 * 16 + 33] = 10_999_999;
    assert_eq!(source_bands(&tbl, 64, 44100, 16), (12, 11));
}

#[test]
fn source_bands_end_at_the_last_band() {
    let mut tbl = vec![0i64; STEPS];
    tbl[8 * 16 + 33] = 2_000_000_000_000_000;
    assert_eq!(source_bands(&tbl, 64, 44100, 16), (16, P_BANDS));
    assert_eq!(source_bands(&tbl, 32768, u32::MAX, 16), (16, P_BANDS));
}

#[test]
fn source_bands_of_the_lowest_bin() {
    let tbl = vec![0i64; STEPS];
    // upper edge of bin 0: 5.51 * 62.5 Hz, 4.93 half octaves
    assert_eq!(source_bands(&tbl, 64, 44100, 0), (0, 4));
    assert_eq!(source_bands(&tbl, 64, 44100, 9), (0, 4));
    // at 8000 Hz and 64 bins the upper edge of bin 0 is 62.5 Hz exactly
    assert_eq!(source_bands(&tbl, 64, 8000, 9), (0, 0));
    // and one half octave is reached at 62.5 Hz * sqrt(2) = 88.4 Hz
    assert_eq!(source_bands(&tbl, 64, 11313, 9), (0, 0));
    assert_eq!(source_bands(&tbl, 64, 11314, 9), (0, 1));
}

#[test]
fn tone_row_on_a_scale_of_one_bin() {
    let work = sample_work();
    let tbl = vec![0i64; STEPS];
    // every offset lies in bin 0, which takes the lowest level of the source
    // bands 0 to 3 and of the band above
    let row = tone_row(&work, &tbl, 64, 44100, 0, 2);
    assert_eq!(row.len(), EHMER_MAX + 2);
    assert_eq!(row[0], 0);
    assert_eq!(row[1], 55);
    for j in 0..EHMER_MAX {
        assert_eq!(row[j + 2], 7000 - 2);
    }
    let high = tone_row(&work, &tbl, 64, 44100, 11, 5);
    for j in 0..EHMER_MAX {
        assert_eq!(high[j + 2], -2000 - 5);
    }
    let last = tone_row(&work, &tbl, 64, 44100, 16, 0);
    for j in 0..EHMER_MAX {
        assert_eq!(last[j + 2], 7000);
    }
}

#[test]
fn tone_row_reads_the_composite_at_each_offset() {
    let work = sample_work();
    // at 25000 Hz and 200 bins a bin is 62.5 Hz wide; band 0 lies in bin 16,
    // whose upper edge is 17 * 62.5 Hz: 8.17 half octaves
    let tbl = half_bin_scale();
    assert_eq!(source_bands(&tbl, 200, 25000, 0), (0, 8));
    let row = tone_row(&work, &tbl, 200, 25000, 0, 3);
    // offset j lies in bin j; source band k renders its first offset up to bin 4k + 1
    assert_eq!(row[2], 3000 - 3);
    assert_eq!(row[2 + 29], 3000 - 3);
    // offset 40: band 7 renders its offsets 11 and 12 there, 3000 + 11 * 8
    assert_eq!(row[2 + 40], 3088 - 3);
    assert_eq!(row[2 + 55], 3000 + 26 * 8 - 3);
    assert_eq!(row[0], 0);
    assert_eq!(row[1], 55);
}

#[test]
fn tone_row_marks_offsets_outside_the_block() {
    let work = sample_work();
    let tbl = half_bin_scale();
    // band 2: offset j lies in bin 8 + j, and the block has 30 bins
    let row = tone_row(&work, &tbl, 30, 25000, 2, 0);
    for j in 0..22 {
        assert!(row[j + 2] > -200 * DB);
    }
    for j in 22..EHMER_MAX {
        assert_eq!(row[j + 2], -999 * DB);
    }
    assert_eq!(row[0], 0);
    assert_eq!(row[1], 21);
}

#[test]
fn fenceposts_stop_at_the_masker() {
    let work = sample_work();
    let mut tbl = half_bin_scale();
    // every offset of band 1 lies outside a block of 4 bins
    let row = tone_row(&work, &tbl, 4, 25000, 1, 0);
    for j in 0..EHMER_MAX {
        assert_eq!(row[j + 2], -999 * DB);
    }
    assert_eq!(row[0], 16);
    assert_eq!(row[1], 17);
    // only offset 20 of band 0 lies inside
    for s in 0..STEPS {
        tbl[s] = 9_000_000;
    }
    tbl[41] = 0;
    let one = tone_row(&work, &tbl, 4, 25000, 0, 0);
    assert!(one[22] > -200 * DB);
    assert_eq!(one[0], 16);
    assert_eq!(one[1], 20);
}

#[test]
fn fenceposts_take_levels_of_minus_200_db_as_unmasked() {
    let mut work = sample_work();
    for k in 0..P_BANDS {
        for m in 0..P_LEVELS {
            for j in 0..EHMER_MAX {
                work[k][m][j] = -200 * DB;
            }
        }
    }
    let tbl = vec![0i64; STEPS];
    let row = tone_row(&work, &tbl, 8, 44100, 0, 0);
    assert_eq!(row[2], -200 * DB);
    assert_eq!(row[0], 16);
    assert_eq!(row[1], 17);
    for m in 0..P_LEVELS {
        for j in 0..EHMER_MAX {
            work[0][m][j] = -200 * DB + 1;
        }
    }
    // the rendering keeps the lowest level, so band 0 alone does not raise the composite
    let same = tone_row(&work, &tbl, 8, 44100, 0, 0);
    assert_eq!(same[2], -200 * DB);
    for k in 0..P_BANDS {
        for m in 0..P_LEVELS {
            for j in 0..EHMER_MAX {
                work[k][m][j] = -200 * DB + 1;
            }
        }
    }
    let above = tone_row(&work, &tbl, 8, 44100, 0, 0);
    assert_eq!(above[0], 0);
    assert_eq!(above[1], 55);
}

#[test]
fn resampled_table_has_a_row_for_each_band_and_level() {
    let table = resample_curves(&sample_work(), &half_bin_scale(), 200, 25000);
    assert_eq!(table.len(), P_BANDS);
    for b in 0..P_BANDS {
        assert_eq!(table[b].len(), P_LEVELS);
        for l in 0..P_LEVELS {
            assert_eq!(table[b][l].len(), EHMER_MAX + 2);
            assert_eq!(table[b][l], tone_row(&sample_work(), &half_bin_scale(), 200, 25000, b, l));
        }
    }
}

#[test]
fn resampled_levels_never_rise_with_the_level() {
    let table = resample_curves(&sample_work(), &half_bin_scale(), 200, 25000);
    for b in 0..P_BANDS {
        for l in 1..P_LEVELS {
            for j in 0..EHMER_MAX {
                assert!(table[b][l][j + 2] <= table[b][l - 1][j + 2]);
            }
        }
    }
}

#[test]
fn resampled_fenceposts_enclose_the_masker() {
    for n in [0usize, 1, 4, 30, 200] {
        let table = resample_curves(&sample_work(), &half_bin_scale(), n, 25000);
        for b in 0..P_BANDS {
            for l in 0..P_LEVELS {
                let row = &table[b][l];
                assert!(0 <= row[0] && row[0] <= 16 && 16 <= row[1] && row[1] < 56);
            }
        }
    }
}
