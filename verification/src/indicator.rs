//! Indicator outputs.
//!
//! Two banks of four PWM indicators show the input amplitude and how
//! many peaks cleared the threshold.  Each bank takes one overall
//! scaling factor distributed over its four channels, earlier channels
//! filling first.

use vstd::prelude::*;

use crate::analysis::{Peak, MAX_PEAKS};
use crate::math::{distribute_bucket, ScalingFactor, FACTOR_ONE, MAX_POSSIBLE_SAMPLE};

verus! {

/// Number of indicator channels each factor is distributed between.
pub const INDICATOR_CHANNELS: usize = 4;

/// The smallest raw sample in a prefix of the buffer.
pub open spec fn prefix_min(s: Seq<u16>, i: int) -> int
    decreases i,
{
    if i <= 0 {
        MAX_POSSIBLE_SAMPLE as int
    } else if s[i - 1] < prefix_min(s, i - 1) {
        s[i - 1] as int
    } else {
        prefix_min(s, i - 1)
    }
}

/// The largest raw sample in a prefix of the buffer.
pub open spec fn prefix_max(s: Seq<u16>, i: int) -> int
    decreases i,
{
    if i <= 0 {
        0
    } else if s[i - 1] > prefix_max(s, i - 1) {
        s[i - 1] as int
    } else {
        prefix_max(s, i - 1)
    }
}

/// The raw amplitude factor of a buffer: how close its most extreme
/// sample comes to either rail, shifted and rescaled so half scale maps
/// to zero and a rail maps to full, then widened from ADC range to the
/// full factor range (saturating at full).
pub open spec fn amplitude_factor(s: Seq<u16>) -> int {
    let close_to_max = MAX_POSSIBLE_SAMPLE - prefix_max(s, s.len() as int);
    let close_to_min = prefix_min(s, s.len() as int);
    let closest = if close_to_max < close_to_min {
        close_to_max
    } else {
        close_to_min
    };
    let closeness = MAX_POSSIBLE_SAMPLE - closest;
    let adjusted = (closeness - MAX_POSSIBLE_SAMPLE as int / 2) * 2;
    if adjusted > MAX_POSSIBLE_SAMPLE as int {
        FACTOR_ONE as int
    } else {
        adjusted * 16
    }
}

/// Samples never exceed the ADC range, so the prefix extrema stay in
/// range too.
proof fn lemma_prefix_bounds(s: Seq<u16>, i: int)
    requires
        0 <= i <= s.len(),
        forall|k: int| 0 <= k < s.len() ==> (#[trigger] s[k]) <= MAX_POSSIBLE_SAMPLE,
    ensures
        0 <= prefix_min(s, i) <= MAX_POSSIBLE_SAMPLE,
        0 <= prefix_max(s, i) <= MAX_POSSIBLE_SAMPLE,
        prefix_max(s, i) >= prefix_min(s, i) || i == 0,
    decreases i,
{
    if i > 0 {
        lemma_prefix_bounds(s, i - 1);
    }
}

/// Compute scaling factors for the amplitude indicator from one raw
/// sample buffer: how close the signal swings to clipping, spread over
/// the four channels.
pub fn amplitude(input: &Vec<u16>) -> (r: Vec<ScalingFactor>)
    requires
        1 <= input@.len(),
        forall|k: int| 0 <= k < input@.len() ==> (#[trigger] input@[k]) <= MAX_POSSIBLE_SAMPLE,
    ensures
        r@.len() == INDICATOR_CHANNELS,
        forall|i: int|
            0 <= i < INDICATOR_CHANNELS ==> (#[trigger] r@[i]).raw == distribute_bucket(
                amplitude_factor(input@) as u16,
                INDICATOR_CHANNELS as int,
                i,
            ),
{
    let mut min_sample: u16 = MAX_POSSIBLE_SAMPLE;
    let mut max_sample: u16 = 0;
    let mut i: usize = 0;
    proof {
        lemma_prefix_bounds(input@, input@.len() as int);
    }
    while i < input.len()
        invariant
            i <= input@.len(),
            forall|k: int| 0 <= k < input@.len() ==> (#[trigger] input@[k]) <= MAX_POSSIBLE_SAMPLE,
            min_sample == prefix_min(input@, i as int),
            max_sample == prefix_max(input@, i as int),
            min_sample <= MAX_POSSIBLE_SAMPLE,
            max_sample <= MAX_POSSIBLE_SAMPLE,
        decreases input@.len() - i,
    {
        let sample = input[i];
        if sample < min_sample {
            min_sample = sample;
        }
        if sample > max_sample {
            max_sample = sample;
        }
        i = i + 1;
    }

    let close_to_max: u16 = MAX_POSSIBLE_SAMPLE - max_sample;
    let close_to_min: u16 = min_sample;
    let closest: u16 = if close_to_max < close_to_min {
        close_to_max
    } else {
        close_to_min
    };
    let closeness: u16 = MAX_POSSIBLE_SAMPLE - closest;
    proof {
        lemma_prefix_bounds(input@, input@.len() as int);
        assert(closest <= MAX_POSSIBLE_SAMPLE as int / 2);
    }
    let adjusted: u16 = (closeness - MAX_POSSIBLE_SAMPLE / 2) * 2;
    let overall: ScalingFactor = if adjusted > MAX_POSSIBLE_SAMPLE {
        ScalingFactor::from_raw(FACTOR_ONE)
    } else {
        ScalingFactor::from_sample(adjusted)
    };
    overall.distribute(INDICATOR_CHANNELS)
}

/// Compute scaling factors for the above-threshold indicator: how many
/// peaks were found this cycle, as a fraction of the most there can be,
/// spread over the four channels.
pub fn threshold(peaks: &Vec<Peak>) -> (r: Vec<ScalingFactor>)
    requires
        peaks@.len() <= MAX_PEAKS,
    ensures
        r@.len() == INDICATOR_CHANNELS,
        forall|i: int|
            0 <= i < INDICATOR_CHANNELS ==> (#[trigger] r@[i]).raw == distribute_bucket(
                ((FACTOR_ONE as int * peaks@.len()) / (MAX_PEAKS as int)) as u16,
                INDICATOR_CHANNELS as int,
                i,
            ),
{
    let overall = ScalingFactor::from_ratio(peaks.len() as u16, MAX_PEAKS as u16);
    overall.distribute(INDICATOR_CHANNELS)
}

} // verus!
