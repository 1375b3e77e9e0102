//! Spectral equalizer.
//!
//! The FFT pipeline's magnitude response is, empirically, not flat: it
//! is well approximated by a line from the full response at zero
//! frequency down toward zero at the top of the used range.  This
//! optional stage rescales each bin by the inverse of that line.  The
//! line is compressed so it never quite reaches zero, which would
//! otherwise amplify the top of the range almost infinitely.

use vstd::prelude::*;

use crate::complex::Complex;
use crate::fft::clamp_i16;
use crate::math::{spec_scale, FACTOR_ONE};

verus! {

/// Maximum feasible amplitude of an FFT peak, derived from the
/// configured buffer lengths and window attenuation (full 16-bit range,
/// scaled by the zero-padding ratio, the window's mean coefficient and
/// a safety margin of about two times the square root of two).
pub const MAX_AMPLITUDE: u16 = 3149;

/// Raw scaling factor compressing the response line so its zero
/// crossing lies past the end of the used range (fifteen sixteenths).
pub const RANGE_COMPRESSION_RAW: u16 = 61439;

/// Division that rounds toward zero, as the hardware's signed division
/// does.
pub open spec fn trunc_div(a: int, b: int) -> int {
    if a >= 0 {
        a / b
    } else {
        -((-a) / b)
    }
}

/// The approximated frequency response at bin `i` of `len`: the full
/// response at zero frequency, falling linearly (compressed) toward the
/// top of the range.  Always at least one.
pub open spec fn eq_gain(i: int, len: int) -> int {
    MAX_AMPLITUDE - spec_scale(
        spec_scale(MAX_AMPLITUDE as int, ((FACTOR_ONE as int * i) / len) as u16),
        RANGE_COMPRESSION_RAW,
    )
}

/// One equalized component: prescaled by the maximum response, then
/// divided by the response at its own frequency, saturated to 16 bits.
pub open spec fn equalized(x: int, i: int, len: int) -> int {
    clamp_i16(trunc_div(x * MAX_AMPLITUDE, eq_gain(i, len)))
}

/// The response approximation stays positive: the compressed line never
/// reaches zero inside the used range.
proof fn lemma_eq_gain_pos(i: int, len: int)
    requires
        0 <= i < len,
    ensures
        1 <= eq_gain(i, len) <= MAX_AMPLITUDE,
{
    let ratio = (FACTOR_ONE as int * i) / len;
    assert(0 <= ratio <= FACTOR_ONE) by (nonlinear_arith)
        requires
            0 <= i < len,
            ratio == (FACTOR_ONE as int * i) / len,
    ;
    let a = spec_scale(MAX_AMPLITUDE as int, ratio as u16);
    assert(0 <= a <= MAX_AMPLITUDE) by (nonlinear_arith)
        requires
            a == (MAX_AMPLITUDE as int * ratio) / 0x10000,
            0 <= ratio <= 0xffff,
    ;
    let b = spec_scale(a, RANGE_COMPRESSION_RAW);
    assert(0 <= b && b < a || b == 0) by (nonlinear_arith)
        requires
            b == (a * RANGE_COMPRESSION_RAW as int) / 0x10000,
            0 <= a,
            RANGE_COMPRESSION_RAW < 0x10000,
    ;
}

/// Rescale every bin by the inverse of the approximated response at its
/// frequency.
pub fn apply_to(bins: &mut Vec<Complex>)
    requires
        old(bins)@.len() <= 0xffff,
    ensures
        final(bins)@.len() == old(bins)@.len(),
        forall|i: int|
            0 <= i < old(bins)@.len() ==> {
                let len = old(bins)@.len() as int;
                &&& (#[trigger] final(bins)@[i]).re as int == equalized(
                    old(bins)@[i].re as int,
                    i,
                    len,
                )
                &&& final(bins)@[i].im as int == equalized(old(bins)@[i].im as int, i, len)
            },
{
    let len: usize = bins.len();
    if len == 0 {
        return ;
    }
    let mut i: usize = 0;
    while i < len
        invariant
            bins@.len() == len == old(bins)@.len(),
            1 <= len <= 0xffff,
            i <= len,
            forall|k: int|
                0 <= k < i ==> {
                    &&& (#[trigger] bins@[k]).re as int == equalized(
                        old(bins)@[k].re as int,
                        k,
                        len as int,
                    )
                    &&& bins@[k].im as int == equalized(old(bins)@[k].im as int, k, len as int)
                },
            forall|k: int| i <= k < len ==> (#[trigger] bins@[k]) == old(bins)@[k],
        decreases len - i,
    {
        proof {
            lemma_eq_gain_pos(i as int, len as int);
            assert(((FACTOR_ONE as int) * (i as int)) < 0x10000 * 0x10000) by (nonlinear_arith)
                requires
                    i <= 0xffff,
            ;
            assert((FACTOR_ONE as int * i as int) / len as int <= FACTOR_ONE)
                by (nonlinear_arith)
                requires
                    0 <= i < len,
            ;
        }
        let ratio: u32 = ((FACTOR_ONE as u32) * (i as u32)) / (len as u32);
        let inner: u32 = ((MAX_AMPLITUDE as u32) * ratio) / 0x10000;
        let outer: u32 = (inner * (RANGE_COMPRESSION_RAW as u32)) / 0x10000;
        proof {
            assert(inner <= MAX_AMPLITUDE && ((inner as int) * (RANGE_COMPRESSION_RAW as int))
                < 0x10000 * 0x10000 && outer <= inner) by (nonlinear_arith)
                requires
                    inner == (MAX_AMPLITUDE as int * ratio as int) / 0x10000,
                    outer == (inner as int * RANGE_COMPRESSION_RAW as int) / 0x10000,
                    0 <= ratio <= 0xffff,
            ;
        }
        let gain: u32 = (MAX_AMPLITUDE as u32) - outer;
        let bin = bins[i];
        let re = equalize_component(bin.re, gain);
        let im = equalize_component(bin.im, gain);
        proof {
            assert(gain == eq_gain(i as int, len as int));
        }
        bins.set(i, Complex { re, im });
        i = i + 1;
    }
}

/// One component scaled up by the maximum response and back down by the
/// local response.
fn equalize_component(x: i16, gain: u32) -> (r: i16)
    requires
        1 <= gain <= MAX_AMPLITUDE,
    ensures
        r as int == clamp_i16(trunc_div(x as int * MAX_AMPLITUDE as int, gain as int)),
{
    proof {
        assert(-32768 * 3149 <= x as int * MAX_AMPLITUDE as int <= 32767 * 3149)
            by (nonlinear_arith)
            requires
                -32768 <= x <= 32767,
        ;
    }
    let prescaled: i64 = (x as i64) * (MAX_AMPLITUDE as i64);
    let down: i64 = if prescaled >= 0 {
        prescaled / (gain as i64)
    } else {
        -((-prescaled) / (gain as i64))
    };
    if down < -0x8000 {
        -0x8000
    } else if down > 0x7fff {
        0x7fff
    } else {
        down as i16
    }
}

} // verus!
