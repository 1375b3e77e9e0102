//! Window function stage.
//!
//! Before the FFT, each sample is multiplied by a precomputed per-index
//! window coefficient (rectangle, Hamming, Hann or Blackman family; the
//! tables are assets computed at build time from the usual formulas).
//! The variant with scaling first shifts samples up from ADC range to
//! the full 16-bit range, to keep precision through the FFT's per-stage
//! halving.

use vstd::prelude::*;

use crate::fft::clamp_i16;
use crate::math::{scale_by, spec_scale, ScalingFactor};

verus! {

/// The window families sampled data can be shaped with before the
/// transform.  Families further down attenuate more but suppress
/// sidelobes and ringing better; the rectangle applies no shaping at
/// all and is mainly useful for debugging.  The coefficient tables are
/// assets computed once at start-up from the usual cosine-sum formulas.
#[derive(Copy, Clone, PartialEq, Eq, Structural, Debug)]
pub enum Window {
    Rectangle,
    Hamming,
    Hann,
    Blackman,
}

impl Window {
    /// Whether the family attenuates at all; a rectangle window leaves
    /// every sample at full weight, so its mean coefficient is one.
    pub fn attenuates(self) -> (r: bool)
        ensures
            r == !(self is Rectangle),
    {
        match self {
            Window::Rectangle => false,
            Window::Hamming => true,
            Window::Hann => true,
            Window::Blackman => true,
        }
    }
}

/// What one windowed, range-shifted sample is: the sample widened from
/// ADC range to the full 16-bit range (saturating at the rails) and
/// scaled by its window coefficient.
pub open spec fn windowed_sample(x: int, w: u16) -> int {
    spec_scale(clamp_i16(x * 16), w)
}

/// Apply a window to raw-range samples, first shifting each sample up
/// to use the full numeric range.
pub fn apply_with_scaling(data: &mut Vec<i16>, window: &Vec<u16>)
    requires
        old(data)@.len() == window@.len(),
    ensures
        final(data)@.len() == old(data)@.len(),
        forall|i: int|
            0 <= i < old(data)@.len() ==> (#[trigger] final(data)@[i]) as int == windowed_sample(
                old(data)@[i] as int,
                window@[i],
            ),
{
    let mut i: usize = 0;
    while i < data.len()
        invariant
            data@.len() == old(data)@.len() == window@.len(),
            i <= data@.len(),
            forall|k: int|
                0 <= k < i ==> (#[trigger] data@[k]) as int == windowed_sample(
                    old(data)@[k] as int,
                    window@[k],
                ),
            forall|k: int| i <= k < data@.len() ==> (#[trigger] data@[k]) == old(data)@[k],
        decreases data@.len() - i,
    {
        let x = data[i];
        let wide: i32 = (x as i32) * 16;
        let full_range: i16 = if wide < -0x8000 {
            -0x8000
        } else if wide > 0x7fff {
            0x7fff
        } else {
            wide as i16
        };
        let windowed = scale_by(full_range, window[i]);
        data.set(i, windowed);
        i = i + 1;
    }
}

/// Apply a window to full-range samples without any shift.
pub fn apply_to(data: &mut Vec<i16>, window: &Vec<u16>)
    requires
        old(data)@.len() == window@.len(),
    ensures
        final(data)@.len() == old(data)@.len(),
        forall|i: int|
            0 <= i < old(data)@.len() ==> (#[trigger] final(data)@[i]) as int == spec_scale(
                old(data)@[i] as int,
                window@[i],
            ),
{
    let mut i: usize = 0;
    while i < data.len()
        invariant
            data@.len() == old(data)@.len() == window@.len(),
            i <= data@.len(),
            forall|k: int|
                0 <= k < i ==> (#[trigger] data@[k]) as int == spec_scale(
                    old(data)@[k] as int,
                    window@[k],
                ),
            forall|k: int| i <= k < data@.len() ==> (#[trigger] data@[k]) == old(data)@[k],
        decreases data@.len() - i,
    {
        let windowed = scale_by(data[i], window[i]);
        data.set(i, windowed);
        i = i + 1;
    }
}

/// The sum of a prefix of window coefficients.
pub open spec fn coeff_sum(window: Seq<u16>, i: int) -> int
    decreases i,
{
    if i <= 0 {
        0
    } else {
        coeff_sum(window, i - 1) + window[i - 1]
    }
}

/// The prefix sum never exceeds the count of terms times the maximum
/// coefficient.
proof fn lemma_coeff_sum_bound(window: Seq<u16>, i: int)
    requires
        0 <= i <= window.len(),
    ensures
        0 <= coeff_sum(window, i) <= i * 0xffff,
    decreases i,
{
    if i > 0 {
        lemma_coeff_sum_bound(window, i - 1);
    }
}

/// The average attenuation of a window: the mean of its coefficients,
/// as a scaling factor.  Peak amplitudes are later normalized against
/// it.  Computed once at start-up and reused, never per cycle.
pub fn amplitude_scale_factor(window: &Vec<u16>) -> (r: ScalingFactor)
    requires
        1 <= window@.len() <= 0x10000,
    ensures
        r.raw == coeff_sum(window@, window@.len() as int) / window@.len() as int,
{
    let mut sum: u64 = 0;
    let mut i: usize = 0;
    proof {
        lemma_coeff_sum_bound(window@, window@.len() as int);
    }
    while i < window.len()
        invariant
            window@.len() <= 0x10000,
            i <= window@.len(),
            sum == coeff_sum(window@, i as int),
            sum <= i * 0xffff,
        decreases window@.len() - i,
    {
        sum = sum + (window[i] as u64);
        i = i + 1;
    }
    let avg: u64 = sum / (window.len() as u64);
    proof {
        assert(coeff_sum(window@, window@.len() as int) / window@.len() as int <= 0xffff) by {
            vstd::arithmetic::div_mod::lemma_div_is_ordered(
                coeff_sum(window@, window@.len() as int),
                window@.len() as int * 0xffff,
                window@.len() as int,
            );
            vstd::arithmetic::div_mod::lemma_div_multiples_vanish(
                0xffff,
                window@.len() as int,
            );
        }
    }
    ScalingFactor::from_raw(avg as u16)
}

} // verus!
