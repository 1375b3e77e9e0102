//! Complex frequency bins.
//!
//! One FFT bin is a pair of same-width signed fixed-point values.  The
//! buffer of bins is built directly as an array of this paired struct,
//! so no layout reinterpretation is ever needed.

use vstd::prelude::*;

verus! {

/// One complex FFT bin: real and imaginary part, 16-bit fixed point.
#[derive(Copy, Clone, PartialEq, Eq, Structural, Debug)]
pub struct Complex {
    pub re: i16,
    pub im: i16,
}

impl Complex {
    /// The additive identity; an all-zero spectrum is made of these.
    pub fn zero() -> (r: Complex)
        ensures
            r.re == 0 && r.im == 0,
    {
        Complex { re: 0, im: 0 }
    }

    pub fn new(re: i16, im: i16) -> (r: Complex)
        ensures
            r.re == re && r.im == im,
    {
        Complex { re, im }
    }
}

} // verus!
