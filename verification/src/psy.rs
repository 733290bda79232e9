//! The configuration of the masking model and the lookup tables that are
//! built from it, once for each block size.

use std::rc::Rc;
use vstd::prelude::*;
use crate::ath::{ath_bin, ath_per_bin, breakpoints_reach, reaches_first_bin};
use crate::bark::{bark_windows, pack_window, window_hi, window_lo};
use crate::consts::{NOISE_COMPAND_LEVELS, PACKETBLOBS, P_BANDS, P_NOISECURVES, VE_BANDS};
use crate::noise::{noise_curve, noise_offset_at};
use crate::octave::{
    first_line, first_octave_line, hf_weight, line_of_octave, masking_weight, octave_line, octave_shift,
    shift_of_lines, MAX_OCTAVE_LINES,
};
use crate::resample::{fenceposts_valid, is_tone_table, resample_curves, tone_levels_descend};
use crate::shaping::{work_table, working_curves};
use crate::tables::{
    all_between, is_octave_table, rows_view, table_view, within, BinScale, MaskingCurves, LEVEL_LIMIT, MAX_BINS,
    OCTAVE_LIMIT,
};

verus! {

/// Tuning that all block sizes of a session share. Thresholds, penalties
/// and rates are in millionths.
#[derive(Clone, Copy, PartialEq, Debug)]
#[allow(non_snake_case)]
pub struct VorbisInfoPsyGlobal {
    /// Lines of the octave scale to the eighth octave.
    pub eighth_octave_lines: i32,
    pub preecho_thresh: [i64; VE_BANDS],
    pub postecho_thresh: [i64; VE_BANDS],
    pub stretch_penalty: i64,
    pub preecho_minenergy: i64,
    pub ampmax_att_per_sec: i64,
    pub coupling_pkHz: [i32; PACKETBLOBS],
    pub coupling_pointlimit: [[i32; PACKETBLOBS]; 2],
    pub coupling_prepointamp: [i32; PACKETBLOBS],
    pub coupling_postpointamp: [i32; PACKETBLOBS],
    pub sliding_lowpass: [[i32; PACKETBLOBS]; 2],
}

impl VorbisInfoPsyGlobal {
    /// The octave scale has at least one line to the eighth octave, and no
    /// more than `MAX_OCTAVE_LINES`.
    pub open spec fn wf(&self) -> bool {
        1 <= self.eighth_octave_lines <= MAX_OCTAVE_LINES
    }

    /// Whether the octave scale has a number of lines that can be built for.
    pub fn is_valid(&self) -> (ok: bool)
        ensures
            ok == self.wf(),
    {
        1 <= self.eighth_octave_lines && self.eighth_octave_lines <= MAX_OCTAVE_LINES
    }

    /// Every field is zero.
    pub open spec fn is_zeroed(&self) -> bool {
        &&& self.eighth_octave_lines == 0
        &&& self.stretch_penalty == 0
        &&& self.preecho_minenergy == 0
        &&& self.ampmax_att_per_sec == 0
        &&& forall|i: int| 0 <= i < VE_BANDS ==> #[trigger] self.preecho_thresh[i] == 0
        &&& forall|i: int| 0 <= i < VE_BANDS ==> #[trigger] self.postecho_thresh[i] == 0
        &&& forall|i: int| 0 <= i < PACKETBLOBS ==> #[trigger] self.coupling_pkHz[i] == 0
        &&& forall|i: int| 0 <= i < PACKETBLOBS ==> #[trigger] self.coupling_prepointamp[i] == 0
        &&& forall|i: int| 0 <= i < PACKETBLOBS ==> #[trigger] self.coupling_postpointamp[i] == 0
        &&& forall|s: int, i: int|
            0 <= s < 2 && 0 <= i < PACKETBLOBS ==> #[trigger] self.coupling_pointlimit[s][i] == 0
        &&& forall|s: int, i: int| 0 <= s < 2 && 0 <= i < PACKETBLOBS ==> #[trigger] self.sliding_lowpass[s][i] == 0
    }
}

impl Default for VorbisInfoPsyGlobal {
    fn default() -> (r: Self)
        ensures
            r.is_zeroed(),
    {
        VorbisInfoPsyGlobal {
            eighth_octave_lines: 0,
            preecho_thresh: [0i64; VE_BANDS],
            postecho_thresh: [0i64; VE_BANDS],
            stretch_penalty: 0,
            preecho_minenergy: 0,
            ampmax_att_per_sec: 0,
            coupling_pkHz: [0i32; PACKETBLOBS],
            coupling_pointlimit: [[0i32; PACKETBLOBS]; 2],
            coupling_prepointamp: [0i32; PACKETBLOBS],
            coupling_postpointamp: [0i32; PACKETBLOBS],
            sliding_lowpass: [[0i32; PACKETBLOBS]; 2],
        }
    }
}

/// The running state that channel coupling keeps beside the shared tuning.
#[derive(Debug, Clone, PartialEq)]
pub struct VorbisLookPsyGlobal {
    /// Running peak amplitude, in millionths of a dB.
    ampmax: i64,
    channels: i32,
    info_psy_global: Rc<VorbisInfoPsyGlobal>,
    coupling_pointlimit: [[i32; P_NOISECURVES]; 2],
}

impl VorbisLookPsyGlobal {
    /// The running peak amplitude.
    pub closed spec fn peak(&self) -> i64 {
        self.ampmax
    }

    /// The number of channels.
    pub closed spec fn channel_count(&self) -> i32 {
        self.channels
    }

    /// The shared tuning.
    pub closed spec fn tuning(&self) -> VorbisInfoPsyGlobal {
        *self.info_psy_global
    }

    /// The point limits, by limit set and noise curve.
    pub closed spec fn point_limits(&self) -> [[i32; P_NOISECURVES]; 2] {
        self.coupling_pointlimit
    }

    /// The state at the start of a stream of `channels` channels whose peak
    /// so far is `ampmax`: no point limit is set yet.
    pub fn new(ampmax: i64, channels: i32, info_psy_global: Rc<VorbisInfoPsyGlobal>) -> (r: Self)
        ensures
            r.peak() == ampmax,
            r.channel_count() == channels,
            r.tuning() == *info_psy_global,
            forall|s: int, c: int| 0 <= s < 2 && 0 <= c < P_NOISECURVES ==> #[trigger] r.point_limits()[s][c] == 0,
    {
        VorbisLookPsyGlobal {
            ampmax,
            channels,
            info_psy_global,
            coupling_pointlimit: [[0i32; P_NOISECURVES]; 2],
        }
    }

    /// The running peak amplitude.
    pub fn ampmax(&self) -> (a: i64)
        ensures
            a == self.peak(),
    {
        self.ampmax
    }

    /// The number of channels.
    pub fn channels(&self) -> (c: i32)
        ensures
            c == self.channel_count(),
    {
        self.channels
    }

    /// The shared tuning.
    pub fn info_psy_global(&self) -> (g: &VorbisInfoPsyGlobal)
        ensures
            *g == self.tuning(),
    {
        &self.info_psy_global
    }

    /// The point limit of limit set `set` for noise curve `curve`.
    pub fn coupling_pointlimit(&self, set: usize, curve: usize) -> (limit: i32)
        requires
            set < 2,
            curve < P_NOISECURVES,
        ensures
            limit == self.point_limits()[set as int][curve as int],
    {
        self.coupling_pointlimit[set][curve]
    }
}

impl Default for VorbisLookPsyGlobal {
    fn default() -> (r: Self)
        ensures
            r.peak() == 0,
            r.channel_count() == 0,
            r.tuning().is_zeroed(),
            forall|s: int, c: int| 0 <= s < 2 && 0 <= c < P_NOISECURVES ==> #[trigger] r.point_limits()[s][c] == 0,
    {
        VorbisLookPsyGlobal {
            ampmax: 0,
            channels: 0,
            info_psy_global: Rc::new(VorbisInfoPsyGlobal::default()),
            coupling_pointlimit: [[0i32; P_NOISECURVES]; 2],
        }
    }
}

/// Tuning of one block-size class. Levels are in millionths of a dB, widths
/// in bark in millionths of a bark.
#[derive(Clone, Copy, PartialEq, Debug)]
#[allow(non_snake_case)]
pub struct VorbisInfoPsy {
    pub block_flag: i32,
    pub ath_adjatt: i64,
    pub ath_maxatt: i64,
    pub tone_masteratt: [i64; P_NOISECURVES],
    /// What is added to a tone curve at the masker.
    pub tone_centerboost: i64,
    /// What is added to a tone curve for each eighth octave from the masker.
    pub tone_decay: i64,
    pub tone_abs_limit: i64,
    /// The attenuation of each band: what is added to the band's working
    /// curves beside what the level takes.
    pub toneatt: [i64; P_BANDS],
    pub noisemaskp: i32,
    pub noisemaxsupp: i64,
    /// Width of the bark window below a bin, in bark.
    pub noisewindowlo: i64,
    /// Width of the bark window above a bin, in bark.
    pub noisewindowhi: i64,
    /// Width of the bark window below a bin, in bins.
    pub noisewindowlomin: i32,
    /// Width of the bark window above a bin, in bins.
    pub noisewindowhimin: i32,
    pub noisewindowfixed: i32,
    /// The noise offset of each band, for each noise curve.
    pub noiseoff: [[i64; P_BANDS]; P_NOISECURVES],
    pub noisecompand: [i64; NOISE_COMPAND_LEVELS],
    pub max_curve_dB: i64,
    pub normal_p: i32,
    pub normal_start: i32,
    pub normal_partition: i32,
    pub normal_thresh: i64,
}

impl VorbisInfoPsy {
    /// The levels that the tables are built from are within `LEVEL_LIMIT`.
    pub open spec fn wf(&self) -> bool {
        &&& within(self.tone_centerboost as int, LEVEL_LIMIT as int)
        &&& within(self.tone_decay as int, LEVEL_LIMIT as int)
        &&& forall|b: int| 0 <= b < P_BANDS ==> within(#[trigger] self.toneatt[b] as int, LEVEL_LIMIT as int)
        &&& forall|c: int, b: int|
            0 <= c < P_NOISECURVES && 0 <= b < P_BANDS ==> within(
                #[trigger] self.noiseoff[c][b] as int,
                LEVEL_LIMIT as int,
            )
    }

    /// Whether the levels that the tables are built from are within
    /// `LEVEL_LIMIT`.
    pub fn is_valid(&self) -> (ok: bool)
        ensures
            ok == self.wf(),
    {
        if self.tone_centerboost < -LEVEL_LIMIT || self.tone_centerboost > LEVEL_LIMIT {
            return false;
        }
        if self.tone_decay < -LEVEL_LIMIT || self.tone_decay > LEVEL_LIMIT {
            return false;
        }
        if !all_between(self.toneatt.as_slice(), -LEVEL_LIMIT, LEVEL_LIMIT) {
            proof {
                let b = choose|b: int|
                    0 <= b < P_BANDS && !(-LEVEL_LIMIT <= #[trigger] self.toneatt[b] <= LEVEL_LIMIT);
                assert(!within(self.toneatt[b] as int, LEVEL_LIMIT as int));
            }
            return false;
        }
        let mut c: usize = 0;
        while c < P_NOISECURVES
            invariant
                c <= P_NOISECURVES,
                forall|t: int, b: int|
                    0 <= t < c && 0 <= b < P_BANDS ==> within(
                        #[trigger] self.noiseoff[t][b] as int,
                        LEVEL_LIMIT as int,
                    ),
            decreases P_NOISECURVES - c,
        {
            if !all_between(self.noiseoff[c].as_slice(), -LEVEL_LIMIT, LEVEL_LIMIT) {
                proof {
                    let b = choose|b: int|
                        0 <= b < P_BANDS && !(-LEVEL_LIMIT <= #[trigger] self.noiseoff[c as int][b] <= LEVEL_LIMIT);
                    assert(!within(self.noiseoff[c as int][b] as int, LEVEL_LIMIT as int));
                }
                return false;
            }
            c += 1;
        }
        true
    }

    /// Every field is zero.
    pub open spec fn is_zeroed(&self) -> bool {
        &&& self.block_flag == 0
        &&& self.ath_adjatt == 0
        &&& self.ath_maxatt == 0
        &&& self.tone_centerboost == 0
        &&& self.tone_decay == 0
        &&& self.tone_abs_limit == 0
        &&& self.noisemaskp == 0
        &&& self.noisemaxsupp == 0
        &&& self.noisewindowlo == 0
        &&& self.noisewindowhi == 0
        &&& self.noisewindowlomin == 0
        &&& self.noisewindowhimin == 0
        &&& self.noisewindowfixed == 0
        &&& self.max_curve_dB == 0
        &&& self.normal_p == 0
        &&& self.normal_start == 0
        &&& self.normal_partition == 0
        &&& self.normal_thresh == 0
        &&& forall|c: int| 0 <= c < P_NOISECURVES ==> #[trigger] self.tone_masteratt[c] == 0
        &&& forall|b: int| 0 <= b < P_BANDS ==> #[trigger] self.toneatt[b] == 0
        &&& forall|c: int, b: int| 0 <= c < P_NOISECURVES && 0 <= b < P_BANDS ==> #[trigger] self.noiseoff[c][b] == 0
        &&& forall|i: int| 0 <= i < NOISE_COMPAND_LEVELS ==> #[trigger] self.noisecompand[i] == 0
    }
}

impl Default for VorbisInfoPsy {
    fn default() -> (r: Self)
        ensures
            r.is_zeroed(),
            r.wf(),
    {
        VorbisInfoPsy {
            block_flag: 0,
            ath_adjatt: 0,
            ath_maxatt: 0,
            tone_masteratt: [0i64; P_NOISECURVES],
            tone_centerboost: 0,
            tone_decay: 0,
            tone_abs_limit: 0,
            toneatt: [0i64; P_BANDS],
            noisemaskp: 0,
            noisemaxsupp: 0,
            noisewindowlo: 0,
            noisewindowhi: 0,
            noisewindowlomin: 0,
            noisewindowhimin: 0,
            noisewindowfixed: 0,
            noiseoff: [[0i64; P_BANDS]; P_NOISECURVES],
            noisecompand: [0i64; NOISE_COMPAND_LEVELS],
            max_curve_dB: 0,
            normal_p: 0,
            normal_start: 0,
            normal_partition: 0,
            normal_thresh: 0,
        }
    }
}

/// `table` holds the tone curves that `curves` and the tuning give for a
/// block of `n` bins at `rate`.
pub open spec fn is_tone_curves(
    table: Seq<Seq<Seq<i64>>>,
    curves: MaskingCurves,
    tbl: Seq<i64>,
    att: Seq<i64>,
    rate: int,
    n: int,
    boost: int,
    decay: int,
) -> bool {
    is_tone_table(table, work_table(curves, att, boost, decay), tbl, n, rate)
}

/// The tone curves of a block of `n` bins at `rate`: for each band and
/// level a row of two fenceposts and `EHMER_MAX` levels.
#[allow(non_snake_case)]
pub fn setup_tone_curves(
    curves: &MaskingCurves,
    tbl: &Vec<i64>,
    curveatt_dB: &[i64; P_BANDS],
    rate: u32,
    n: usize,
    center_boost: i64,
    center_decay_rate: i64,
) -> (table: Vec<Vec<Vec<i64>>>)
    requires
        curves.wf(),
        is_octave_table(tbl@),
        forall|b: int| 0 <= b < P_BANDS ==> within(#[trigger] curveatt_dB[b] as int, LEVEL_LIMIT as int),
        within(center_boost as int, LEVEL_LIMIT as int),
        within(center_decay_rate as int, LEVEL_LIMIT as int),
        n <= MAX_BINS,
    ensures
        is_tone_curves(
            table_view(&table),
            *curves,
            tbl@,
            curveatt_dB@,
            rate as int,
            n as int,
            center_boost as int,
            center_decay_rate as int,
        ),
        fenceposts_valid(table_view(&table)),
        tone_levels_descend(table_view(&table)),
{
    let work = working_curves(curves, curveatt_dB, center_boost, center_decay_rate);
    resample_curves(&work, tbl, n, rate)
}

/// `table` holds, for each noise curve, the offset of each of the bins
/// whose centers lie at `center` on the octave scale.
pub open spec fn is_noise_offsets(table: Seq<Seq<i64>>, center: Seq<i64>, vi: VorbisInfoPsy) -> bool {
    &&& table.len() == P_NOISECURVES
    &&& forall|c: int| 0 <= c < P_NOISECURVES ==> (#[trigger] table[c]).len() == center.len()
    &&& forall|c: int, i: int|
        0 <= c < P_NOISECURVES && 0 <= i < center.len() ==> #[trigger] table[c][i] == noise_offset_at(
            vi.noiseoff[c]@,
            center[i] as int,
        )
}

/// The noise offsets of a block of `n` bins, for each noise curve.
pub fn setup_noise_offset(center: &Vec<i64>, n: usize, vi: &VorbisInfoPsy) -> (table: Vec<Vec<i64>>)
    requires
        vi.wf(),
        center@.len() == n,
        forall|i: int| 0 <= i < n ==> within(#[trigger] center@[i] as int, OCTAVE_LIMIT as int),
    ensures
        is_noise_offsets(rows_view(&table), center@, *vi),
{
    let mut table: Vec<Vec<i64>> = Vec::new();
    let mut c: usize = 0;
    while c < P_NOISECURVES
        invariant
            c <= P_NOISECURVES,
            vi.wf(),
            center@.len() == n,
            forall|i: int| 0 <= i < n ==> within(#[trigger] center@[i] as int, OCTAVE_LIMIT as int),
            table@.len() == c,
            forall|t: int| 0 <= t < c ==> (#[trigger] table@[t])@.len() == n,
            forall|t: int, i: int|
                0 <= t < c && 0 <= i < n ==> #[trigger] table@[t]@[i] == noise_offset_at(
                    vi.noiseoff[t]@,
                    center@[i] as int,
                ),
        decreases P_NOISECURVES - c,
    {
        assert forall|b: int| 0 <= b < P_BANDS implies within(
            #[trigger] vi.noiseoff[c as int][b] as int,
            LEVEL_LIMIT as int,
        ) by {
        }
        let row = noise_curve(&vi.noiseoff[c], center, n);
        table.push(row);
        c += 1;
    }
    proof {
        let view = rows_view(&table);
        assert forall|t: int, i: int| 0 <= t < P_NOISECURVES && 0 <= i < n implies #[trigger] view[t][i]
            == noise_offset_at(vi.noiseoff[t]@, center@[i] as int) by {
            assert(view[t] == table@[t]@);
        }
        assert forall|t: int| 0 <= t < P_NOISECURVES implies (#[trigger] view[t]).len() == n by {
            assert(view[t] == table@[t]@);
        }
    }
    table
}

/// The lookup tables of one block size at one sample rate.
#[derive(Clone, PartialEq, Debug)]
#[allow(non_snake_case)]
pub struct VorbisLookPsy {
    /// Bins of the block.
    pub n: usize,
    pub vorbis_info_phy: Rc<VorbisInfoPsy>,
    /// `tonecurves[band][level]`: two fenceposts, which are offsets, then
    /// the level at each of the `EHMER_MAX` offsets, in millionths of a dB.
    pub tonecurves: Vec<Vec<Vec<i64>>>,
    /// `noiseoffset[noise curve][bin]`, in millionths of a dB.
    pub noiseoffset: Vec<Vec<i64>>,
    /// The threshold of hearing of each bin, lifted by 100 dB, in millionths
    /// of a dB.
    pub ath: Vec<i64>,
    /// The octave line of each bin.
    pub octave: Vec<i32>,
    /// The bark window of each bin, packed.
    pub bark: Vec<i32>,
    /// The octave line of the lowest frequency, less the lines of an eighth
    /// octave.
    pub firstoc: i32,
    /// One less than the binary logarithm of the lines to the octave.
    pub shiftoc: i32,
    /// Lines of the octave scale to the eighth octave.
    pub eighth_octave_lines: i32,
    /// Octave lines from the first to that of the top of the spectrum.
    pub total_octave_lines: i32,
    /// Sample rate in Hz.
    pub rate: u32,
    /// Weight of the high-frequency compensation, in millionths.
    pub m_val: i64,
}

impl VorbisLookPsy {
    /// What can be built for: a block of `n` bins at `rate`, with tuning
    /// and data within the limits and a scale made for `n` bins.
    pub open spec fn can_build(
        info: VorbisInfoPsy,
        global: VorbisInfoPsyGlobal,
        n: int,
        rate: int,
        curves: MaskingCurves,
        scale: BinScale,
    ) -> bool {
        &&& info.wf()
        &&& global.wf()
        &&& curves.wf()
        &&& scale.wf(n)
        &&& 1 <= n <= MAX_BINS
        &&& 1 <= rate
        &&& breakpoints_reach(scale.octave_bin@)
    }

    /// Whether lookup tables can be built for a block of `n` bins at `rate`
    /// from this tuning, these measured data and this scale.
    pub fn buildable(
        info: &VorbisInfoPsy,
        global: &VorbisInfoPsyGlobal,
        n: usize,
        rate: u32,
        curves: &MaskingCurves,
        scale: &BinScale,
    ) -> (ok: bool)
        ensures
            ok == Self::can_build(*info, *global, n as int, rate as int, *curves, *scale),
    {
        info.is_valid() && global.is_valid() && curves.is_valid() && scale.is_valid(n) && 1 <= n && n <= MAX_BINS
            && 1 <= rate && reaches_first_bin(&scale.octave_bin)
    }

    /// The scalars are those of a block of `n` bins at `rate`.
    pub open spec fn scalars_built_from(
        &self,
        info: VorbisInfoPsy,
        global: VorbisInfoPsyGlobal,
        n: int,
        rate: int,
        scale: BinScale,
    ) -> bool {
        let lines = global.eighth_octave_lines as int;
        let shift = octave_shift(lines);
        let first = first_octave_line(scale.bin_octave@[0] as int, shift, lines);
        &&& self.n == n
        &&& self.rate == rate
        &&& *self.vorbis_info_phy == info
        &&& self.eighth_octave_lines == lines
        &&& self.shiftoc == shift
        &&& self.firstoc == first
        &&& self.total_octave_lines == octave_line(scale.bin_octave@[n] as int, shift) - first + 1
        &&& self.m_val == masking_weight(rate)
    }

    /// The tables by bin are those of a block of `n` bins.
    pub open spec fn bins_built_from(
        &self,
        info: VorbisInfoPsy,
        global: VorbisInfoPsyGlobal,
        n: int,
        curves: MaskingCurves,
        scale: BinScale,
    ) -> bool {
        let shift = octave_shift(global.eighth_octave_lines as int);
        &&& self.ath@.len() == n
        &&& self.octave@.len() == n
        &&& self.bark@.len() == n
        &&& forall|i: int| 0 <= i < n ==> #[trigger] self.ath@[i] == ath_bin(curves.ath@, scale.octave_bin@, n, i)
        &&& forall|i: int| 0 <= i < n ==> #[trigger] self.octave@[i] == octave_line(scale.bin_octave@[i] as int, shift)
        &&& forall|i: int|
            0 <= i < n ==> #[trigger] self.bark@[i] == pack_window(
                window_lo(scale.bin_bark@, info.noisewindowlomin as int, info.noisewindowlo as int, i),
                window_hi(scale.bin_bark@, info.noisewindowhimin as int, info.noisewindowhi as int, i),
            )
    }

    /// Every table and scalar is the one that the tuning, the measured data
    /// and the scale give for a block of `n` bins at `rate`.
    pub open spec fn built_from(
        &self,
        info: VorbisInfoPsy,
        global: VorbisInfoPsyGlobal,
        n: int,
        rate: int,
        curves: MaskingCurves,
        scale: BinScale,
    ) -> bool {
        &&& self.scalars_built_from(info, global, n, rate, scale)
        &&& self.bins_built_from(info, global, n, curves, scale)
        &&& is_tone_curves(
            table_view(&self.tonecurves),
            curves,
            scale.octave_bin@,
            info.toneatt@,
            rate,
            n,
            info.tone_centerboost as int,
            info.tone_decay as int,
        )
        &&& is_noise_offsets(rows_view(&self.noiseoffset), scale.center_octave@, info)
    }

    /// Builds the lookup tables of a block of `n` bins at `rate`.
    pub fn new(
        vorbis_info_phy: Rc<VorbisInfoPsy>,
        vorbis_info_psy_global: &VorbisInfoPsyGlobal,
        n: usize,
        rate: u32,
        curves: &MaskingCurves,
        scale: &BinScale,
    ) -> (r: Self)
        requires
            Self::can_build(*vorbis_info_phy, *vorbis_info_psy_global, n as int, rate as int, *curves, *scale),
        ensures
            r.built_from(*vorbis_info_phy, *vorbis_info_psy_global, n as int, rate as int, *curves, *scale),
            fenceposts_valid(table_view(&r.tonecurves)),
            tone_levels_descend(table_view(&r.tonecurves)),
    {
        let eighth_octave_lines: i32 = vorbis_info_psy_global.eighth_octave_lines;
        let shiftoc: i32 = shift_of_lines(eighth_octave_lines);
        assert(within(scale.bin_octave@[0] as int, OCTAVE_LIMIT as int));
        assert(within(scale.bin_octave@[n as int] as int, OCTAVE_LIMIT as int));
        let firstoc: i32 = first_line(scale.bin_octave[0], shiftoc, eighth_octave_lines);
        let maxoc: i32 = line_of_octave(scale.bin_octave[n], shiftoc);
        let total_octave_lines: i32 = maxoc - firstoc + 1;
        let m_val: i64 = hf_weight(rate);

        let ath = ath_per_bin(&curves.ath, &scale.octave_bin, n);
        let bark = bark_windows(
            &scale.bin_bark,
            n,
            vorbis_info_phy.noisewindowlomin,
            vorbis_info_phy.noisewindowhimin,
            vorbis_info_phy.noisewindowlo,
            vorbis_info_phy.noisewindowhi,
        );

        let mut octave: Vec<i32> = Vec::new();
        let mut i: usize = 0;
        while i < n
            invariant
                i <= n,
                scale.wf(n as int),
                2 <= shiftoc <= 22,
                shiftoc == octave_shift(eighth_octave_lines as int),
                octave@.len() == i,
                forall|t: int|
                    0 <= t < i ==> #[trigger] octave@[t] == octave_line(
                        scale.bin_octave@[t] as int,
                        shiftoc as int,
                    ),
            decreases n - i,
        {
            assert(within(scale.bin_octave@[i as int] as int, OCTAVE_LIMIT as int));
            octave.push(line_of_octave(scale.bin_octave[i], shiftoc));
            i += 1;
        }

        let tonecurves = setup_tone_curves(
            curves,
            &scale.octave_bin,
            &vorbis_info_phy.toneatt,
            rate,
            n,
            vorbis_info_phy.tone_centerboost,
            vorbis_info_phy.tone_decay,
        );
        let noiseoffset = setup_noise_offset(&scale.center_octave, n, &vorbis_info_phy);

        VorbisLookPsy {
            n,
            vorbis_info_phy,
            tonecurves,
            noiseoffset,
            ath,
            octave,
            bark,
            firstoc,
            shiftoc,
            eighth_octave_lines,
            total_octave_lines,
            rate,
            m_val,
        }
    }
}

impl Default for VorbisLookPsy {
    fn default() -> (r: Self)
        ensures
            r.n == 0,
            r.rate == 0,
            r.vorbis_info_phy.is_zeroed(),
            r.tonecurves@.len() == 0,
            r.noiseoffset@.len() == 0,
            r.ath@.len() == 0,
            r.octave@.len() == 0,
            r.bark@.len() == 0,
            r.firstoc == 0,
            r.shiftoc == 0,
            r.eighth_octave_lines == 0,
            r.total_octave_lines == 0,
            r.m_val == 0,
    {
        VorbisLookPsy {
            n: 0,
            vorbis_info_phy: Rc::new(VorbisInfoPsy::default()),
            tonecurves: Vec::new(),
            noiseoffset: Vec::new(),
            ath: Vec::new(),
            octave: Vec::new(),
            bark: Vec::new(),
            firstoc: 0,
            shiftoc: 0,
            eighth_octave_lines: 0,
            total_octave_lines: 0,
            rate: 0,
            m_val: 0,
        }
    }
}

} // verus!
