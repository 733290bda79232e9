use std::rc::Rc;
use vorbis_psy::consts::{EHMER_MAX, MAX_ATH, P_BANDS, P_LEVELS, P_MEASURED, P_NOISECURVES};
use vorbis_psy::{
    setup_tone_curves, BinScale, MaskingCurves, VorbisInfoPsy, VorbisInfoPsyGlobal, VorbisLookPsy,
    VorbisLookPsyGlobal,
};

const DB: i64 = 1_000_000;

fn to_oc(hz: f64) -> f64 {
    hz.ln() * 1.442695 - 5.965784
}

fn from_oc(oc: f64) -> f64 {
    ((oc + 5.965784) * 0.693147).exp()
}

fn to_bark(hz: f64) -> f64 {
    13.1 * (0.00074 * hz).atan() + 2.24 * (hz * hz * 1.85e-8).atan() + 1e-4 * hz
}

fn fixed(x: f64) -> i64 {
    (x * 1e6).floor() as i64
}

/// The scale of a block of `n` bins at `rate`.
fn scale_for(n: usize, rate: u32) -> BinScale {
    let bin_hz = rate as f64 * 0.5 / n as f64;
    let step = (rate as i64 / (2 * n as i64)) as f64;
    BinScale {
        octave_bin: (0..241).map(|s| fixed(from_oc((s as f64 - 33.0) / 16.0) / bin_hz)).collect(),
        bin_octave: (0..=n).map(|i| fixed(to_oc((i as f64 + 0.25) * bin_hz))).collect(),
        center_octave: (0..n).map(|i| fixed(to_oc((i as f64 + 0.5) * bin_hz))).collect(),
        bin_bark: (0..n).map(|i| fixed(to_bark(step * i as f64))).collect(),
    }
}

/// Data in the shape of measured data: a threshold of hearing with a dip in
/// the middle, and masks that fall away from the masker, the faster the
/// quieter the masker.
fn sample_curves() -> MaskingCurves {
    let mut ath = [0i64; MAX_ATH];
    for i in 0..MAX_ATH {
        let away = (i as i64 - 60).abs();
        ath[i] = (-107 + away * away / 40) * DB;
    }
    let mut tone_masks = [[[0i64; EHMER_MAX]; P_MEASURED]; P_BANDS];
    for b in 0..P_BANDS {
        for l in 0..P_MEASURED {
            for k in 0..EHMER_MAX {
                let away = (k as i64 - 16).abs();
                let level = -20 - (6 - l as i64) * away - 2 * b as i64;
                tone_masks[b][l][k] = if level < -110 { -999 * DB } else { level * DB };
            }
        }
    }
    MaskingCurves { ath, tone_masks }
}

fn global(lines: i32) -> VorbisInfoPsyGlobal {
    VorbisInfoPsyGlobal { eighth_octave_lines: lines, ..VorbisInfoPsyGlobal::default() }
}

fn tuned() -> VorbisInfoPsy {
    let mut info = VorbisInfoPsy::default();
    info.tone_centerboost = -2 * DB;
    info.tone_decay = 250_000;
    info.noisewindowlo = 500_000;
    info.noisewindowhi = 500_000;
    info.noisewindowlomin = 4;
    info.noisewindowhimin = 2;
    for b in 0..P_BANDS {
        info.toneatt[b] = (b as i64 - 55) * DB;
        for c in 0..P_NOISECURVES {
            info.noiseoff[c][b] = (c as i64 * 3 - 20 + b as i64) * DB;
        }
    }
    info
}

fn build(info: VorbisInfoPsy, lines: i32, n: usize, rate: u32) -> VorbisLookPsy {
    let curves = sample_curves();
    let scale = scale_for(n, rate);
    let g = global(lines);
    assert!(VorbisLookPsy::buildable(&info, &g, n, rate, &curves, &scale));
    VorbisLookPsy::new(Rc::new(info), &g, n, rate, &curves, &scale)
}

fn unpack(w: i32) -> (i32, i32) {
    ((w >> 16) + 1, (w & 0xffff) + 1)
}

#[test]
fn m_val_follows_the_sample_rate() {
    assert_eq!(build(tuned(), 32, 64, 20000).m_val, 0);
    assert_eq!(build(tuned(), 32, 64, 32000).m_val, 940_000);
    assert_eq!(build(tuned(), 32, 64, 48000).m_val, 1_275_000);
    assert_eq!(build(tuned(), 32, 64, 44100).m_val, 1_000_000);
}

#[test]
fn degenerate_tuning_still_builds_valid_tables() {
    let mut info = VorbisInfoPsy::default();
    info.toneatt[5] = -15 * DB;
    let look = build(info, 32, 64, 44100);
    assert_eq!(look.n, 64);
    assert_eq!(look.rate, 44100);
    assert_eq!(look.tonecurves.len(), P_BANDS);
    for band in &look.tonecurves {
        assert_eq!(band.len(), P_LEVELS);
        for row in band {
            assert_eq!(row.len(), EHMER_MAX + 2);
            assert!(0 <= row[0] && row[0] <= 16);
            assert!(16 <= row[1] && row[1] < 56);
        }
    }
    assert_eq!(look.noiseoffset.len(), P_NOISECURVES);
    for row in &look.noiseoffset {
        assert_eq!(row, &vec![0i64; 64]);
    }
    assert_eq!(look.ath.len(), 64);
    assert_eq!(look.octave.len(), 64);
    assert_eq!(look.bark.len(), 64);
}

#[test]
fn scalars_of_a_block_of_64_bins_at_44100_hz() {
    let look = build(tuned(), 32, 64, 44100);
    assert_eq!(look.eighth_octave_lines, 32);
    assert_eq!(look.shiftoc, 7);
    // the lowest frequency, 86 Hz, lies 0.4627 octaves up: line 118, less the 32 lines
    assert_eq!(look.firstoc, 86);
    assert_eq!(look.firstoc, look.octave[0] - 32);
    // the top, 22136 Hz, lies 8.468 octaves up: line 2168
    assert_eq!(look.total_octave_lines, 2168 - 86 + 1);
    assert_eq!(*look.vorbis_info_phy, tuned());
}

#[test]
fn octave_lines_of_the_bins() {
    let look = build(tuned(), 32, 64, 44100);
    // bin 0 at 86.1 Hz: 0.4627 octaves; bin 1 at 430.7 Hz: 2.7847; bin 63 at 21791 Hz: 8.4457
    assert_eq!(look.octave[0], 118);
    assert_eq!(look.octave[1], 713);
    assert_eq!(look.octave[63], 2162);
    for i in 1..64 {
        assert!(look.octave[i - 1] < look.octave[i]);
    }
    let coarse = build(tuned(), 1, 64, 44100);
    assert_eq!(coarse.shiftoc, 2);
    assert_eq!(coarse.octave[63], 68);
    // 0.4627 octaves at 8 lines to the octave: line 4, less the one line
    assert_eq!(coarse.octave[0], 4);
    assert_eq!(coarse.firstoc, 3);
}

#[test]
fn tables_have_the_shape_of_the_model() {
    for n in [1usize, 2, 64, 128, 1024] {
        let look = build(tuned(), 32, n, 44100);
        assert_eq!(look.tonecurves.len(), P_BANDS);
        assert_eq!(look.tonecurves.iter().map(|b| b.len()).sum::<usize>(), P_BANDS * P_LEVELS);
        for band in &look.tonecurves {
            for row in band {
                assert_eq!(row.len(), EHMER_MAX + 2);
            }
        }
        assert_eq!(look.noiseoffset.len(), P_NOISECURVES);
        for row in &look.noiseoffset {
            assert_eq!(row.len(), n);
        }
        assert_eq!(look.ath.len(), n);
        assert_eq!(look.octave.len(), n);
        assert_eq!(look.bark.len(), n);
    }
}

#[test]
fn the_same_inputs_give_the_same_lookup() {
    let a = build(tuned(), 32, 256, 44100);
    let b = build(tuned(), 32, 256, 44100);
    assert_eq!(a.tonecurves, b.tonecurves);
    assert_eq!(a.noiseoffset, b.noiseoffset);
    assert_eq!(a.ath, b.ath);
    assert_eq!(a.octave, b.octave);
    assert_eq!(a.bark, b.bark);
    assert!(a == b);
    let c = build(tuned(), 32, 256, 48000);
    assert!(a != c);
}

#[test]
fn tone_curves_never_rise_with_the_level() {
    for (n, rate) in [(64usize, 44100u32), (1024, 44100), (128, 8000), (2048, 96000)] {
        let look = build(tuned(), 32, n, rate);
        for b in 0..P_BANDS {
            for l in 1..P_LEVELS {
                let lo = look.tonecurves[b][l][0] as usize;
                let hi = look.tonecurves[b][l][1] as usize;
                for k in lo..=hi {
                    assert!(look.tonecurves[b][l][k + 2] <= look.tonecurves[b][l - 1][k + 2]);
                }
                for k in 0..EHMER_MAX {
                    assert!(look.tonecurves[b][l][k + 2] <= look.tonecurves[b][l - 1][k + 2]);
                }
            }
        }
    }
}

#[test]
fn fenceposts_enclose_the_masker() {
    for (n, rate) in [(64usize, 44100u32), (1024, 44100), (128, 8000), (2048, 96000), (1, 44100)] {
        let look = build(tuned(), 32, n, rate);
        for band in &look.tonecurves {
            for row in band {
                assert!(0 <= row[0] && row[0] <= 16 && 16 <= row[1] && row[1] < 56);
                let lo = row[0] as usize;
                let hi = row[1] as usize;
                for k in 0..lo {
                    assert!(row[k + 2] <= -200 * DB);
                }
                for k in hi + 1..EHMER_MAX {
                    assert!(row[k + 2] <= -200 * DB);
                }
                assert!(lo == 16 || row[lo + 2] > -200 * DB);
                assert!(hi == 17 || row[hi + 2] > -200 * DB);
            }
        }
    }
}

#[test]
fn tone_curves_outside_the_block_are_unmasked() {
    // at 8000 Hz the top band, at 16 kHz, lies above the block
    let look = build(tuned(), 32, 128, 8000);
    for l in 0..P_LEVELS {
        let row = &look.tonecurves[16][l];
        for k in 16..EHMER_MAX {
            assert_eq!(row[k + 2], -999 * DB);
        }
        assert_eq!(row[1], 17);
    }
}

#[test]
fn bark_windows_hold_their_bins_and_never_fall() {
    for (n, rate) in [(64usize, 44100u32), (1024, 44100), (128, 8000), (2048, 96000)] {
        let look = build(tuned(), 32, n, rate);
        let mut before = (1, 1);
        for i in 0..n {
            let (lo, hi) = unpack(look.bark[i]);
            assert!(lo <= i as i32 + 1 && i as i32 + 1 <= hi);
            assert!(before.0 <= lo && before.1 <= hi);
            assert!(1 <= lo && hi <= n as i32);
            assert_eq!(look.bark[i], ((lo - 1) << 16) | (hi - 1));
            before = (lo, hi);
        }
    }
}

#[test]
fn bark_windows_are_half_a_bark_wide_where_the_bins_allow() {
    let look = build(tuned(), 32, 1024, 44100);
    let scale = scale_for(1024, 44100);
    for i in 0..1024usize {
        let (lo, hi) = unpack(look.bark[i]);
        let (lo, hi) = (lo as usize, hi as usize);
        // the lower bound is the first bin within 4 bins or within half a bark
        assert!(lo + 4 >= i || scale.bin_bark[lo] >= scale.bin_bark[i] - 500_000 || lo == 1024);
        if lo > 1 {
            assert!(lo - 1 + 4 < i && scale.bin_bark[lo - 1] < scale.bin_bark[i] - 500_000);
        }
        // the upper bound is the first bin 2 bins up and half a bark up
        if hi < 1024 {
            assert!(hi >= i + 2 && scale.bin_bark[hi] >= scale.bin_bark[i] + 500_000);
        }
        if hi > 1 && hi - 1 > i {
            assert!(hi - 1 < i + 2 || scale.bin_bark[hi - 1] < scale.bin_bark[i] + 500_000);
        }
    }
}

#[test]
fn ath_moves_one_way_between_two_breakpoints() {
    let curves = sample_curves();
    let n = 1024;
    let look = build(tuned(), 32, n, 44100);
    let scale = scale_for(n, 44100);
    let mut from = 0usize;
    for i in 0..MAX_ATH - 1 {
        let to = ((scale.octave_bin[2 * i + 3] + 500_000).div_euclid(1_000_000)) as usize;
        if from < to && from < n {
            let (a, b) = (curves.ath[i] + 100 * DB, curves.ath[i + 1] + 100 * DB);
            assert_eq!(look.ath[from], a);
            for bin in from + 1..to.min(n) {
                assert!(a.min(b) <= look.ath[bin] && look.ath[bin] <= a.max(b));
                if a <= b {
                    assert!(look.ath[bin - 1] <= look.ath[bin]);
                } else {
                    assert!(look.ath[bin - 1] >= look.ath[bin]);
                }
            }
            from = to.min(n);
        }
    }
    assert!(from > 0);
    for bin in from..n {
        assert_eq!(look.ath[bin], look.ath[from - 1]);
    }
}

#[test]
fn noise_offsets_of_a_rising_line_rise_without_a_jump() {
    let look = build(tuned(), 32, 1024, 44100);
    let scale = scale_for(1024, 44100);
    for c in 0..P_NOISECURVES {
        let base = (c as i64 * 3 - 20) * DB;
        for i in 0..1024 {
            // 1 dB per half octave from the offset of the first band
            let pos = (2 * scale.center_octave[i]).clamp(0, 15 * DB);
            assert_eq!(look.noiseoffset[c][i], base + pos);
            if i > 0 {
                assert!(look.noiseoffset[c][i - 1] <= look.noiseoffset[c][i]);
            }
        }
    }
}

#[test]
fn noise_offsets_above_the_last_band_pair_are_clamped() {
    let mut info = tuned();
    for c in 0..P_NOISECURVES {
        info.noiseoff[c][15] = 11 * DB;
        info.noiseoff[c][16] = -400 * DB;
    }
    // at 96000 Hz the top bins lie above 62.5 Hz * 2^7.5 = 11314 Hz
    let n = 256;
    let look = build(info, 32, n, 96000);
    let scale = scale_for(n, 96000);
    let mut clamped = 0;
    for i in 0..n {
        if 2 * scale.center_octave[i] >= 15 * DB {
            for c in 0..P_NOISECURVES {
                assert_eq!(look.noiseoffset[c][i], 11 * DB);
            }
            clamped += 1;
        }
    }
    assert!(clamped > 100);
    assert_eq!(look.noiseoffset[0][n - 1], 11 * DB);
}

#[test]
fn buildable_refuses_what_cannot_be_built() {
    let curves = sample_curves();
    let scale = scale_for(64, 44100);
    let info = tuned();
    assert!(VorbisLookPsy::buildable(&info, &global(32), 64, 44100, &curves, &scale));
    // a sample rate of zero, no bins, too many bins
    assert!(!VorbisLookPsy::buildable(&info, &global(32), 64, 0, &curves, &scale));
    assert!(!VorbisLookPsy::buildable(&info, &global(32), 0, 44100, &curves, &scale_for(1, 44100)));
    assert!(!VorbisLookPsy::buildable(&info, &global(32), 32769, 44100, &curves, &scale_for(32769, 44100)));
    assert!(VorbisLookPsy::buildable(&info, &global(32), 32768, 44100, &curves, &scale_for(32768, 44100)));
    // a scale made for another block size
    assert!(!VorbisLookPsy::buildable(&info, &global(32), 63, 44100, &curves, &scale));
    assert!(!VorbisLookPsy::buildable(&info, &global(32), 65, 44100, &curves, &scale));
    // an octave scale without lines, or with too many
    assert!(!VorbisLookPsy::buildable(&info, &global(0), 64, 44100, &curves, &scale));
    assert!(!VorbisLookPsy::buildable(&info, &global(-32), 64, 44100, &curves, &scale));
    assert!(VorbisLookPsy::buildable(&info, &global(1_048_576), 64, 44100, &curves, &scale));
    assert!(!VorbisLookPsy::buildable(&info, &global(1_048_577), 64, 44100, &curves, &scale));
}

#[test]
fn buildable_refuses_tables_of_the_wrong_size_or_range() {
    let curves = sample_curves();
    let info = tuned();
    let g = global(32);
    let good = scale_for(64, 44100);
    let mut short = scale_for(64, 44100);
    short.octave_bin.pop();
    assert!(!VorbisLookPsy::buildable(&info, &g, 64, 44100, &curves, &short));
    let mut long = scale_for(64, 44100);
    long.bin_bark.push(0);
    assert!(!VorbisLookPsy::buildable(&info, &g, 64, 44100, &curves, &long));
    let mut center = scale_for(64, 44100);
    center.center_octave.pop();
    assert!(!VorbisLookPsy::buildable(&info, &g, 64, 44100, &curves, &center));
    let mut negative = scale_for(64, 44100);
    negative.octave_bin[7] = -1;
    assert!(!VorbisLookPsy::buildable(&info, &g, 64, 44100, &curves, &negative));
    let mut far = scale_for(64, 44100);
    far.bin_octave[64] = 32_000_001;
    assert!(!VorbisLookPsy::buildable(&info, &g, 64, 44100, &curves, &far));
    let mut flat = scale_for(64, 44100);
    for s in 0..241 {
        flat.octave_bin[s] = 0;
    }
    // no breakpoint of the threshold of hearing reaches bin 1
    assert!(!VorbisLookPsy::buildable(&info, &g, 64, 44100, &curves, &flat));
    let mut loud = sample_curves();
    loud.tone_masks[16][5][55] = 10_000 * DB + 1;
    assert!(!VorbisLookPsy::buildable(&info, &g, 64, 44100, &loud, &good));
    loud.tone_masks[16][5][55] = 10_000 * DB;
    assert!(VorbisLookPsy::buildable(&info, &g, 64, 44100, &loud, &good));
    loud.ath[87] = -10_000 * DB - 1;
    assert!(!VorbisLookPsy::buildable(&info, &g, 64, 44100, &loud, &good));
    let mut wild = tuned();
    wild.noiseoff[2][16] = i64::MIN;
    assert!(!VorbisLookPsy::buildable(&wild, &g, 64, 44100, &curves, &good));
    let mut boost = tuned();
    boost.tone_centerboost = 10_000 * DB + 1;
    assert!(!VorbisLookPsy::buildable(&boost, &g, 64, 44100, &curves, &good));
    let mut decay = tuned();
    decay.tone_decay = -10_000 * DB - 1;
    assert!(!VorbisLookPsy::buildable(&decay, &g, 64, 44100, &curves, &good));
    let mut att = tuned();
    att.toneatt[0] = i64::MAX;
    assert!(!VorbisLookPsy::buildable(&att, &g, 64, 44100, &curves, &good));
}

#[test]
fn tables_at_the_limits_build() {
    let mut curves = sample_curves();
    for i in 0..MAX_ATH {
        curves.ath[i] = if i % 2 == 0 { -10_000 * DB } else { 10_000 * DB };
    }
    for b in 0..P_BANDS {
        for l in 0..P_MEASURED {
            for k in 0..EHMER_MAX {
                curves.tone_masks[b][l][k] = if (b + l + k) % 2 == 0 { -10_000 * DB } else { 10_000 * DB };
            }
        }
    }
    let mut info = tuned();
    info.tone_centerboost = 10_000 * DB;
    info.tone_decay = 10_000 * DB;
    info.toneatt = [10_000 * DB; P_BANDS];
    info.noiseoff = [[-10_000 * DB; P_BANDS]; P_NOISECURVES];
    info.noisewindowlo = i64::MAX;
    info.noisewindowhi = i64::MIN;
    info.noisewindowlomin = i32::MIN;
    info.noisewindowhimin = i32::MAX;
    let scale = scale_for(512, 44100);
    let g = global(1_048_576);
    assert!(VorbisLookPsy::buildable(&info, &g, 512, 44100, &curves, &scale));
    let look = VorbisLookPsy::new(Rc::new(info), &g, 512, 44100, &curves, &scale);
    assert_eq!(look.shiftoc, 22);
    for band in &look.tonecurves {
        for l in 0..P_LEVELS {
            assert!(0 <= band[l][0] && band[l][0] <= 16 && 16 <= band[l][1] && band[l][1] < 56);
            for k in 2..EHMER_MAX + 2 {
                assert!(l == 0 || band[l][k] <= band[l - 1][k]);
            }
        }
    }
    assert_eq!(look.noiseoffset[1][100], -10_000 * DB);
}

#[test]
fn global_lookup_starts_with_the_given_peak() {
    let g = Rc::new(global(32));
    let look = VorbisLookPsyGlobal::new(-9_999 * DB, 2, g.clone());
    assert_eq!(look.ampmax(), -9_999 * DB);
    assert_eq!(look.channels(), 2);
    assert_eq!(*look.info_psy_global(), *g);
    assert_eq!(look.info_psy_global().eighth_octave_lines, 32);
    for set in 0..2 {
        for curve in 0..P_NOISECURVES {
            assert_eq!(look.coupling_pointlimit(set, curve), 0);
        }
    }
    assert!(look == VorbisLookPsyGlobal::new(-9_999 * DB, 2, g.clone()));
    assert!(look != VorbisLookPsyGlobal::new(-9_999 * DB, 1, g));
}

#[test]
fn defaults_are_zero() {
    let g = VorbisInfoPsyGlobal::default();
    assert_eq!(g.eighth_octave_lines, 0);
    assert_eq!(g.preecho_thresh, [0; 7]);
    assert_eq!(g.coupling_pointlimit, [[0; 15]; 2]);
    assert_eq!(g.sliding_lowpass, [[0; 15]; 2]);
    assert!(!g.is_valid());
    let info = VorbisInfoPsy::default();
    assert_eq!(info.toneatt, [0; P_BANDS]);
    assert_eq!(info.noiseoff, [[0; P_BANDS]; P_NOISECURVES]);
    assert_eq!(info.noisecompand, [0; 40]);
    assert_eq!(info.normal_thresh, 0);
    assert!(info.is_valid());
    let look = VorbisLookPsyGlobal::default();
    assert_eq!(look.ampmax(), 0);
    assert_eq!(look.channels(), 0);
    assert_eq!(*look.info_psy_global(), g);
    let empty = VorbisLookPsy::default();
    assert_eq!(empty.n, 0);
    assert_eq!(empty.rate, 0);
    assert_eq!(empty.m_val, 0);
    assert!(empty.tonecurves.is_empty() && empty.noiseoffset.is_empty());
    assert!(empty.ath.is_empty() && empty.octave.is_empty() && empty.bark.is_empty());
    assert_eq!(*empty.vorbis_info_phy, info);
}

#[test]
fn one_db_more_attenuation_raises_a_tone_curve_by_one_db() {
    // one bin that holds every tabulated step, masks of -1 dB, a threshold far below
    let curves = MaskingCurves {
        ath: [-10_000 * DB; MAX_ATH],
        tone_masks: [[[-DB; EHMER_MAX]; P_MEASURED]; P_BANDS],
    };
    let tbl = vec![0i64; 241];
    let none = setup_tone_curves(&curves, &tbl, &[0; P_BANDS], 44100, 1, 0, 0);
    let one = setup_tone_curves(&curves, &tbl, &[DB; P_BANDS], 44100, 1, 0, 0);
    // the quietest level: -1 dB moved by 100 - 20 - 30 dB
    for b in 0..P_BANDS {
        for k in 0..EHMER_MAX {
            assert_eq!(none[b][0][k + 2], 49 * DB);
            assert_eq!(one[b][0][k + 2], 50 * DB);
        }
    }
    // from the second level on the threshold limits both: -10000 + 100 - 10 - 30 dB
    assert_eq!(none[0][1][2], -9_940 * DB);
    assert_eq!(one[0][1][2], -9_940 * DB);
}

#[test]
fn raising_the_attenuation_never_lowers_a_tone_curve() {
    let mut high = tuned();
    for b in 0..P_BANDS {
        high.toneatt[b] += (b as i64 % 4) * 2 * DB;
    }
    for (n, rate) in [(64usize, 44100u32), (512, 48000), (128, 8000)] {
        let below = build(tuned(), 32, n, rate);
        let above = build(high, 32, n, rate);
        for b in 0..P_BANDS {
            for l in 0..P_LEVELS {
                for k in 0..EHMER_MAX {
                    assert!(below.tonecurves[b][l][k + 2] <= above.tonecurves[b][l][k + 2]);
                }
            }
        }
        assert_eq!(below.ath, above.ath);
        assert_eq!(below.noiseoffset, above.noiseoffset);
    }
}
