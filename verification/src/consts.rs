//! Dimensions of the model. They are fixed by the measured data, never by
//! configuration.

use vstd::prelude::*;

verus! {

/// Half-octave measurement bands.
pub const P_BANDS: usize = 17;

/// Driving-loudness levels per band.
pub const P_LEVELS: usize = 8;

/// Measured sound-pressure levels per band.
pub const P_MEASURED: usize = 6;

/// Loudness of the quietest level, in dB SL.
pub const P_LEVEL_0: i64 = 30;

/// Noise curves (aggressiveness classes).
pub const P_NOISECURVES: usize = 3;

/// Levels of the noise companding table.
pub const NOISE_COMPAND_LEVELS: usize = 40;

/// Width of the window of relative frequency offsets, in eighth octaves.
pub const EHMER_MAX: usize = 56;

/// Offset of the masker itself inside the window.
pub const EHMER_OFFSET: usize = 16;

/// Breakpoints of the absolute threshold of hearing, one per eighth octave.
pub const MAX_ATH: usize = 88;

/// Bands of the envelope detector.
pub const VE_BANDS: usize = 7;

/// Coupling-quality blobs per packet.
pub const PACKETBLOBS: usize = 15;

/// Length of a tone-curve row: two fenceposts, then `EHMER_MAX` levels.
pub const TONE_ROW: usize = EHMER_MAX + 2;

} // verus!
