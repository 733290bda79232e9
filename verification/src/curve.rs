//! Pointwise operations on one masking curve: the first `EHMER_MAX` entries
//! of a slice of levels.

use vstd::prelude::*;
use vstd::slice::SliceAdditionalExecFns;
use crate::consts::EHMER_MAX;
use crate::fixed::{max2, max_i64, min2, min_i64};

verus! {

/// Replaces each entry of `c` by the smaller of itself and the entry of
/// `c2` at the same place.
pub fn min_curve(c: &mut [i64], c2: &[i64])
    requires
        old(c)@.len() >= EHMER_MAX,
        c2@.len() >= EHMER_MAX,
    ensures
        final(c)@.len() == old(c)@.len(),
        forall|i: int| 0 <= i < EHMER_MAX ==> final(c)@[i] == min2(old(c)@[i] as int, c2@[i] as int),
        forall|i: int| EHMER_MAX <= i < old(c)@.len() ==> final(c)@[i] == old(c)@[i],
{
    let mut i: usize = 0;
    while i < EHMER_MAX
        invariant
            i <= EHMER_MAX,
            c@.len() == old(c)@.len(),
            c@.len() >= EHMER_MAX,
            c2@.len() >= EHMER_MAX,
            forall|t: int| 0 <= t < i ==> c@[t] == min2(old(c)@[t] as int, c2@[t] as int),
            forall|t: int| i <= t < c@.len() ==> c@[t] == old(c)@[t],
        decreases EHMER_MAX - i,
    {
        let v: i64 = min_i64(c[i], c2[i]);
        c.set(i, v);
        i += 1;
    }
}

/// Replaces each entry of `c` by the larger of itself and the entry of
/// `c2` at the same place.
pub fn max_curve(c: &mut [i64], c2: &[i64])
    requires
        old(c)@.len() >= EHMER_MAX,
        c2@.len() >= EHMER_MAX,
    ensures
        final(c)@.len() == old(c)@.len(),
        forall|i: int| 0 <= i < EHMER_MAX ==> final(c)@[i] == max2(old(c)@[i] as int, c2@[i] as int),
        forall|i: int| EHMER_MAX <= i < old(c)@.len() ==> final(c)@[i] == old(c)@[i],
{
    let mut i: usize = 0;
    while i < EHMER_MAX
        invariant
            i <= EHMER_MAX,
            c@.len() == old(c)@.len(),
            c@.len() >= EHMER_MAX,
            c2@.len() >= EHMER_MAX,
            forall|t: int| 0 <= t < i ==> c@[t] == max2(old(c)@[t] as int, c2@[t] as int),
            forall|t: int| i <= t < c@.len() ==> c@[t] == old(c)@[t],
        decreases EHMER_MAX - i,
    {
        let v: i64 = max_i64(c[i], c2[i]);
        c.set(i, v);
        i += 1;
    }
}

/// Shifts each entry of `c` by the amount `att`: a curve in dB moves to
/// another reference level, and an amount of zero leaves it as it is.
pub fn attenuate_curve(c: &mut [i64], att: i64)
    requires
        old(c)@.len() >= EHMER_MAX,
        forall|i: int| 0 <= i < EHMER_MAX ==> i64::MIN <= (#[trigger] old(c)@[i]) + att <= i64::MAX,
    ensures
        final(c)@.len() == old(c)@.len(),
        forall|i: int| 0 <= i < EHMER_MAX ==> final(c)@[i] == old(c)@[i] + att,
        forall|i: int| EHMER_MAX <= i < old(c)@.len() ==> final(c)@[i] == old(c)@[i],
{
    let mut i: usize = 0;
    while i < EHMER_MAX
        invariant
            i <= EHMER_MAX,
            c@.len() == old(c)@.len(),
            c@.len() >= EHMER_MAX,
            forall|t: int| 0 <= t < EHMER_MAX ==> i64::MIN <= (#[trigger] old(c)@[t]) + att <= i64::MAX,
            forall|t: int| 0 <= t < i ==> c@[t] == old(c)@[t] + att,
            forall|t: int| i <= t < c@.len() ==> c@[t] == old(c)@[t],
        decreases EHMER_MAX - i,
    {
        let v: i64 = c[i] + att;
        c.set(i, v);
        i += 1;
    }
}

} // verus!
