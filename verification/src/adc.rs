//! Raw sample conditioning.
//!
//! The ADC delivers unsigned oversampled readings centered at half
//! scale.  Each pair of consecutive readings is averaged (rounded) and
//! the half-scale offset subtracted, yielding one signed sample per
//! pair, centered at zero.

use vstd::prelude::*;

use crate::math::MAX_POSSIBLE_SAMPLE;

verus! {

/// The ADC averages this many raw readings for each processed sample.
pub const OVERSAMPLE: usize = 2;

/// One processed sample: the rounded average of its two raw readings,
/// shifted from unsigned half-scale-centered to signed zero-centered.
pub open spec fn processed_sample(a: u16, b: u16) -> int {
    (a + b + 1) / 2 - MAX_POSSIBLE_SAMPLE as int / 2
}

/// Convert one buffer of raw oversampled readings into signed samples.
pub fn process_raw_samples(input: &Vec<u16>, output: &mut Vec<i16>)
    requires
        input@.len() % 2 == 0,
        forall|k: int| 0 <= k < input@.len() ==> (#[trigger] input@[k]) <= MAX_POSSIBLE_SAMPLE,
    ensures
        final(output)@.len() == input@.len() / 2,
        forall|k: int|
            0 <= k < final(output)@.len() ==> (#[trigger] final(output)@[k]) as int
                == processed_sample(input@[2 * k], input@[2 * k + 1]),
{
    output.clear();
    let half: usize = input.len() / 2;
    proof {
        vstd::arithmetic::div_mod::lemma_fundamental_div_mod(input@.len() as int, 2);
    }
    let mut i: usize = 0;
    while i < half
        invariant
            input@.len() == 2 * half,
            input@.len() <= usize::MAX,
            forall|k: int| 0 <= k < input@.len() ==> (#[trigger] input@[k]) <= MAX_POSSIBLE_SAMPLE,
            i <= half,
            output@.len() == i,
            forall|k: int|
                0 <= k < i ==> (#[trigger] output@[k]) as int == processed_sample(
                    input@[2 * k],
                    input@[2 * k + 1],
                ),
        decreases half - i,
    {
        let a = input[2 * i];
        let b = input[2 * i + 1];
        let sum: u32 = (a as u32) + (b as u32) + 1;
        let avg: u32 = sum / 2;
        let sample: i16 = (avg as i32 - (MAX_POSSIBLE_SAMPLE / 2) as i32) as i16;
        output.push(sample);
        i = i + 1;
    }
}

} // verus!
