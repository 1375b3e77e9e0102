//! Control-knob samples.
//!
//! A control sample is one raw ADC reading from a potentiometer,
//! widened to a scaling factor and used to pick a value out of a
//! configured range (an amplitude threshold, a pulse width).

use vstd::prelude::*;

use crate::math::{scale_by_u16, spec_scale, ScalingFactor, MAX_POSSIBLE_SAMPLE};

verus! {

/// One control reading, held as a fraction of the full knob travel.
#[derive(Copy, Clone, PartialEq, Eq, Structural, Debug)]
pub struct Sample {
    pub value: ScalingFactor,
}

impl Sample {
    /// Create a control sample from a raw 12-bit ADC reading.
    pub fn new(sample: u16) -> (r: Sample)
        requires
            sample <= MAX_POSSIBLE_SAMPLE,
        ensures
            r.value.raw == sample * 16,
    {
        Sample { value: ScalingFactor::from_sample(sample) }
    }

    /// Pick a value from a given range: the start plus the knob's
    /// fraction of the range's size.
    pub fn to_value_in_range(self, start: u16, end: u16) -> (r: u16)
        requires
            start <= end,
        ensures
            r == start + spec_scale((end - start) as int, self.value.raw),
            start <= r <= end,
    {
        let size: u16 = end - start;
        let scaled: u16 = scale_by_u16(size, self.value.raw);
        start + scaled
    }

    /// Pick a value from a given range of a wider unit (a pulse width in
    /// timer ticks, for one).
    pub fn to_value_in_range_u32(self, start: u32, end: u32) -> (r: u32)
        requires
            start <= end,
        ensures
            r == start + spec_scale((end - start) as int, self.value.raw),
            start <= r <= end,
    {
        let size: u32 = end - start;
        let scaled: u32 = crate::math::scale_by_u32(size, self.value.raw);
        start + scaled
    }
}

} // verus!
