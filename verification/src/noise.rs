//! The noise offset of each bin: the offsets of the bands, half an octave
//! apart, joined by straight lines.

use vstd::prelude::*;
use vstd::arithmetic::div_mod::{lemma_div_is_ordered, lemma_fundamental_div_mod, lemma_mod_bound};
use crate::consts::P_BANDS;
use crate::fixed::{clamp, floor_div, UNIT};
use crate::tables::{within, LEVEL_LIMIT, OCTAVE_LIMIT};

verus! {

/// The last position from which a line to the next band can start.
pub const LAST_HALF_OCTAVE: i64 = 15_000_000;

/// The position of a frequency in half octaves above 62.5 Hz, kept between
/// the first band and the last but one.
pub open spec fn half_octave_position(oc: int) -> int {
    clamp(2 * oc, 0, LAST_HALF_OCTAVE as int)
}

/// The band below a position in half octaves.
pub open spec fn band_below(pos: int) -> int {
    pos / (UNIT as int)
}

/// How far a position in half octaves lies above the band below it.
pub open spec fn part_above(pos: int) -> int {
    pos % (UNIT as int)
}

/// The offset at `oc` on the octave scale, on the line between the offsets
/// `raw` of the two bands that enclose it.
pub open spec fn noise_offset_at(raw: Seq<i64>, oc: int) -> int {
    let pos = half_octave_position(oc);
    let band = band_below(pos);
    let del = part_above(pos);
    (raw[band] * (UNIT - del) + raw[band + 1] * del) / (UNIT as int)
}

/// The offsets of one noise curve for bins whose centers lie at `center` on
/// the octave scale.
pub fn noise_curve(raw: &[i64; P_BANDS], center: &Vec<i64>, n: usize) -> (r: Vec<i64>)
    requires
        forall|b: int| 0 <= b < P_BANDS ==> within(#[trigger] raw[b] as int, LEVEL_LIMIT as int),
        center@.len() == n,
        forall|i: int| 0 <= i < n ==> within(#[trigger] center@[i] as int, OCTAVE_LIMIT as int),
    ensures
        r@.len() == n,
        forall|i: int| 0 <= i < n ==> r@[i] == noise_offset_at(raw@, center@[i] as int),
{
    let mut r: Vec<i64> = Vec::new();
    let mut i: usize = 0;
    while i < n
        invariant
            i <= n,
            forall|b: int| 0 <= b < P_BANDS ==> within(#[trigger] raw[b] as int, LEVEL_LIMIT as int),
            center@.len() == n,
            forall|t: int| 0 <= t < n ==> within(#[trigger] center@[t] as int, OCTAVE_LIMIT as int),
            r@.len() == i,
            forall|t: int| 0 <= t < i ==> r@[t] == noise_offset_at(raw@, center@[t] as int),
        decreases n - i,
    {
        assert(within(center@[i as int] as int, OCTAVE_LIMIT as int));
        let twice: i64 = 2 * center[i];
        let pos: i64 = if twice < 0 { 0 } else if twice > LAST_HALF_OCTAVE { LAST_HALF_OCTAVE } else { twice };
        let band: usize = (pos / UNIT) as usize;
        let del: i64 = pos % UNIT;
        let below: i64 = raw[band];
        let above: i64 = raw[band + 1];
        assert(within(raw[band as int] as int, LEVEL_LIMIT as int));
        assert(within(raw[band + 1] as int, LEVEL_LIMIT as int));
        proof {
            lemma_line_parts(below as int, above as int, del as int);
        }
        let sum: i64 = below * (UNIT - del) + above * del;
        let level: i128 = floor_div(sum as i128, UNIT as i128);
        r.push(level as i64);
        i += 1;
    }
    r
}

/// The two parts of a point on a line between levels within the limit.
proof fn lemma_line_parts(below: int, above: int, del: int)
    requires
        within(below, LEVEL_LIMIT as int),
        within(above, LEVEL_LIMIT as int),
        0 <= del < UNIT,
    ensures
        within(below * (UNIT - del), LEVEL_LIMIT * UNIT),
        within(above * del, LEVEL_LIMIT * UNIT),
        within(below * (UNIT - del) + above * del, LEVEL_LIMIT * UNIT),
{
    let lim = LEVEL_LIMIT as int;
    let u = UNIT as int;
    assert(-(lim * (u - del)) <= below * (u - del) <= lim * (u - del)) by (nonlinear_arith)
        requires
            -lim <= below <= lim,
            0 < u - del,
    {
    }
    assert(-(lim * del) <= above * del <= lim * del) by (nonlinear_arith)
        requires
            -lim <= above <= lim,
            0 <= del,
    {
    }
    assert(lim * (u - del) + lim * del == lim * u) by (nonlinear_arith);
}

/// Where the offsets of the bands lie on one straight line, so do the
/// offsets of the bins: the bin's offset is the line at the bin's position
/// in half octaves, whatever band the position falls in, and so without a
/// jump at the bands.
pub proof fn lemma_noise_offset_linear(raw: Seq<i64>, base: int, slope: int, oc: int)
    requires
        raw.len() == P_BANDS,
        forall|b: int| 0 <= b < P_BANDS ==> #[trigger] raw[b] == base + slope * b,
    ensures
        noise_offset_at(raw, oc) == base + (slope * half_octave_position(oc)) / (UNIT as int),
{
    let u = UNIT as int;
    let pos = half_octave_position(oc);
    let band = band_below(pos);
    let del = part_above(pos);
    lemma_fundamental_div_mod(pos, u);
    lemma_mod_bound(pos, u);
    assert(0 <= band <= 15);
    let below = raw[band] as int;
    let above = raw[band + 1] as int;
    assert(below == base + slope * band);
    assert(above == base + slope * (band + 1));
    let step = slope * band;
    assert(slope * (band + 1) == step + slope) by (nonlinear_arith)
        requires
            step == slope * band,
    {
    }
    assert(below * (u - del) + (below + slope) * del == below * u + slope * del) by (nonlinear_arith);
    assert((base + step) * u == base * u + step * u) by (nonlinear_arith);
    assert(slope * (u * band + del) == step * u + slope * del) by (nonlinear_arith)
        requires
            step == slope * band,
    {
    }
    assert(below * (u - del) + above * del == slope * pos + base * u);
    vstd::arithmetic::div_mod::lemma_hoist_over_denominator(slope * pos, base, u as nat);
}

/// Where the offsets of the bands rise along one straight line, the offset
/// of a bin that lies higher is not lower.
pub proof fn lemma_noise_offset_rises(raw: Seq<i64>, base: int, slope: int, oc1: int, oc2: int)
    requires
        raw.len() == P_BANDS,
        forall|b: int| 0 <= b < P_BANDS ==> #[trigger] raw[b] == base + slope * b,
        slope >= 0,
        oc1 <= oc2,
    ensures
        noise_offset_at(raw, oc1) <= noise_offset_at(raw, oc2),
{
    lemma_noise_offset_linear(raw, base, slope, oc1);
    lemma_noise_offset_linear(raw, base, slope, oc2);
    let pos1 = half_octave_position(oc1);
    let pos2 = half_octave_position(oc2);
    assert(slope * pos1 <= slope * pos2) by (nonlinear_arith)
        requires
            slope >= 0,
            pos1 <= pos2,
    {
    }
    lemma_div_is_ordered(slope * pos1, slope * pos2, UNIT as int);
}

/// A bin whose center lies at or above the last band but one takes the
/// offset of that band: the position is held there, and the line starts
/// from it.
pub proof fn lemma_noise_offset_clamped(raw: Seq<i64>, oc: int)
    requires
        raw.len() == P_BANDS,
        2 * oc >= LAST_HALF_OCTAVE,
    ensures
        half_octave_position(oc) == LAST_HALF_OCTAVE,
        band_below(half_octave_position(oc)) == P_BANDS - 2,
        noise_offset_at(raw, oc) == raw[P_BANDS - 2],
{
    let below = raw[15] as int;
    assert((below * 1_000_000 + raw[16] * 0) / 1_000_000 == below);
}

/// A bin whose center lies at or below the first band takes the offset of
/// that band.
pub proof fn lemma_noise_offset_floor(raw: Seq<i64>, oc: int)
    requires
        raw.len() == P_BANDS,
        oc <= 0,
    ensures
        half_octave_position(oc) == 0,
        noise_offset_at(raw, oc) == raw[0],
{
    let below = raw[0] as int;
    assert((below * 1_000_000 + raw[1] * 0) / 1_000_000 == below);
}

} // verus!
