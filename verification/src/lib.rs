//! Lookup tables for a psychoacoustic masking model, built in fixed-point
//! arithmetic and verified with Verus.
//!
//! An encoder decides once, for each block size and sample rate, how much
//! noise the ear tolerates at each frequency: the tone curves say what a
//! pure tone of a given loudness masks around it, the noise offsets and the
//! bark windows shape the noise floor, and the threshold of hearing bounds
//! both from below. [`VorbisLookPsy::new`] builds these tables from a
//! tuning, from measured masking data and from the place of each bin on the
//! octave and bark scales; [`laws`] states what holds of every lookup that
//! it builds.
//!
//! Every real quantity (a level in dB, a position on the octave or bark
//! scale, a position in bins) is an `i64` count of millionths; see
//! [`fixed`]. What only floating point can compute, the position of each
//! bin on the logarithmic frequency scales, enters as a [`BinScale`].

pub mod consts;
pub mod fixed;

pub mod tables;
pub mod curve;
pub mod shaping;
pub mod resample;
pub mod ath;
pub mod bark;
pub mod octave;
pub mod noise;
pub mod psy;
pub mod laws;

pub use crate::psy::{
    setup_noise_offset, setup_tone_curves, VorbisInfoPsy, VorbisInfoPsyGlobal, VorbisLookPsy, VorbisLookPsyGlobal,
};
pub use crate::tables::{BinScale, MaskingCurves};
