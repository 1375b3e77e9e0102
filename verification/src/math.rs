//! Fixed-point math utilities.
//!
//! All fractions in the signal path are `ScalingFactor` values: a `u16`
//! where `0` means zero and `u16::MAX` means one.  Scaling a value by a
//! factor multiplies into a wide intermediate and floor-divides by
//! `2^16`.  The module also provides rounded division, squared
//! amplitude, an exact integer square root, and the fixed-point phase
//! of a complex bin (the one outside-crate call of the crate).

use vstd::prelude::*;

use crate::complex::Complex;

verus! {

/// Raw factor value that stands for one (all sixteen fraction bits set).
pub const FACTOR_ONE: u16 = 65535;

/// The ADC delivers samples of this many bits; control samples are
/// widened from this range to the full `u16` range.
pub const ADC_RESOLUTION_BITS: u32 = 12;

/// Largest raw sample the 12-bit ADC can deliver.
pub const MAX_POSSIBLE_SAMPLE: u16 = 4095;

/// A scaling factor, from zero to one.
///
/// Internally, zero is represented as `0`, and one as `u16::MAX`.
#[derive(Copy, Clone, PartialEq, Eq, Structural, Debug)]
pub struct ScalingFactor {
    pub raw: u16,
}

/// What scaling an integer value by a factor yields: the product
/// floor-divided by `2^16`.
pub open spec fn spec_scale(x: int, factor: u16) -> int {
    (x * factor) / 0x10000
}

impl ScalingFactor {
    /// Construct a scaling factor from a raw value, with `u16::MAX`
    /// representing one.
    pub fn from_raw(factor: u16) -> (r: ScalingFactor)
        ensures
            r.raw == factor,
    {
        ScalingFactor { raw: factor }
    }

    /// Construct a scaling factor from a 12-bit ADC control sample by
    /// widening it to the full `u16` range.
    pub fn from_sample(sample: u16) -> (r: ScalingFactor)
        requires
            sample <= MAX_POSSIBLE_SAMPLE,
        ensures
            r.raw == sample * 16,
    {
        ScalingFactor { raw: sample * 16 }
    }

    /// Construct a scaling factor from a proper fraction.
    pub fn from_ratio(num: u16, denom: u16) -> (r: ScalingFactor)
        requires
            num <= denom,
            denom > 0,
        ensures
            r.raw == (FACTOR_ONE as int * num as int) / (denom as int),
    {
        let wide: u32 = (FACTOR_ONE as u32) * (num as u32) / (denom as u32);
        proof {
            assert((FACTOR_ONE as int * num as int) / (denom as int) <= FACTOR_ONE as int) by (nonlinear_arith)
                requires
                    num <= denom,
                    denom > 0,
            ;
        }
        ScalingFactor { raw: wide as u16 }
    }

    /// Split the factor up into `n` buckets, filling earlier buckets
    /// first.
    ///
    /// For example, an overall factor of five eighths distributed over
    /// four buckets yields full, full, half, zero.
    pub fn distribute(self, n: usize) -> (r: Vec<ScalingFactor>)
        requires
            1 <= n <= 0xffff,
        ensures
            r@.len() == n,
            forall|i: int|
                0 <= i < n ==> #[trigger] r@[i].raw == distribute_bucket(self.raw, n as int, i),
    {
        let max_factor_over_n: u16 = FACTOR_ONE / (n as u16);
        let mut factors: Vec<ScalingFactor> = Vec::new();
        let mut i: usize = 0;
        while i < n
            invariant
                i <= n,
                1 <= n <= 0xffff,
                max_factor_over_n == FACTOR_ONE as int / n as int,
                factors@.len() == i,
                forall|k: int|
                    0 <= k < i ==> #[trigger] factors@[k].raw == distribute_bucket(
                        self.raw,
                        n as int,
                        k,
                    ),
            decreases n - i,
        {
            proof {
                assert((i as int) * (max_factor_over_n as int) < 0x10000 * 0x10000)
                    by (nonlinear_arith)
                    requires
                        i < 0x10000,
                        max_factor_over_n < 0x10000,
                ;
            }
            let used: u32 = (i as u32) * (max_factor_over_n as u32);
            let local_over_n: u32 = if (self.raw as u32) >= used {
                (self.raw as u32) - used
            } else {
                0
            };
            let local: u16 = if local_over_n >= max_factor_over_n as u32 {
                FACTOR_ONE
            } else {
                proof {
                    assert(local_over_n * n < 0x10000) by (nonlinear_arith)
                        requires
                            local_over_n < FACTOR_ONE as int / n as int,
                            1 <= n <= 0xffff,
                    ;
                }
                ((local_over_n as u32) * (n as u32)) as u16
            };
            factors.push(ScalingFactor { raw: local });
            i = i + 1;
        }
        factors
    }
}

/// The value of one distribute bucket: the portion of the factor left
/// over after the earlier buckets, rescaled to the full range and
/// saturated at one.
pub open spec fn distribute_bucket(raw: u16, n: int, i: int) -> int {
    let max_over_n = FACTOR_ONE as int / n;
    let local_over_n = if raw >= i * max_over_n {
        raw - i * max_over_n
    } else {
        0
    };
    if local_over_n >= max_over_n {
        FACTOR_ONE as int
    } else {
        local_over_n * n
    }
}

/// Fixed-point scaling of a signed 16-bit value: multiply into 32-bit
/// precision, keep the high half (floor of the product over `2^16`).
pub fn scale_by(x: i16, factor: u16) -> (r: i16)
    ensures
        r as int == spec_scale(x as int, factor),
{
    proof {
        assert(-32768 * 65535 <= (x as int) * (factor as int) <= 32767 * 65535
            && (-(x as int)) * (factor as int) == -((x as int) * (factor as int)))
            by (nonlinear_arith)
            requires
                -32768 <= x <= 32767,
                0 <= factor <= 65535,
        ;
    }
    if x >= 0 {
        proof {
            assert(0 <= (x as int) * (factor as int)) by (nonlinear_arith)
                requires
                    x >= 0,
                    factor >= 0,
            ;
        }
        let p: i64 = (x as i64) * (factor as i64);
        let q: i64 = p / 0x10000;
        q as i16
    } else {
        let m: i64 = (-(x as i64)) * (factor as i64);
        let q: i64 = -((m + 0xffff) / 0x10000);
        proof {
            assert(m >= 0) by (nonlinear_arith)
                requires
                    m == (-(x as int)) * (factor as int),
                    x < 0,
                    factor >= 0,
            ;
            lemma_neg_floor_div((x as int) * (factor as int), m as int);
        }
        q as i16
    }
}

/// Floor division fact used by the negative branch of scaling: for a
/// product `p == -m` with `m >= 0`, `p / 2^16 == -((m + 2^16 - 1) / 2^16)`.
proof fn lemma_neg_floor_div(p: int, m: int)
    requires
        m >= 0,
        p == -m,
    ensures
        p / 0x10000 == -((m + 0xffff) / 0x10000),
{
    let b = 0x10000int;
    let q = m / b;
    let r = m % b;
    vstd::arithmetic::div_mod::lemma_fundamental_div_mod(m, b);
    if r == 0 {
        assert(p == b * (-q) + 0);
        vstd::arithmetic::div_mod::lemma_fundamental_div_mod_converse(p, b, -q, 0);
        assert((m + 0xffff) == b * q + (r + 0xffff));
        vstd::arithmetic::div_mod::lemma_fundamental_div_mod_converse(m + 0xffff, b, q, r + 0xffff);
    } else {
        assert(p == b * (-q - 1) + (b - r));
        vstd::arithmetic::div_mod::lemma_fundamental_div_mod_converse(p, b, -q - 1, b - r);
        assert((m + 0xffff) == b * (q + 1) + (r - 1));
        vstd::arithmetic::div_mod::lemma_fundamental_div_mod_converse(m + 0xffff, b, q + 1, r - 1);
    }
}

/// Fixed-point scaling of an unsigned 16-bit value.
pub fn scale_by_u16(x: u16, factor: u16) -> (r: u16)
    ensures
        r as int == spec_scale(x as int, factor),
        r <= x,
{
    proof {
        assert((x as int) * (factor as int) <= 0xffff * 0xffff
            && (x as int) * (factor as int) / 0x10000 <= x) by (nonlinear_arith)
            requires
                x <= 0xffff,
                0 <= factor <= 0xffff,
        ;
    }
    let p: u32 = (x as u32) * (factor as u32);
    let q: u32 = p / 0x10000;
    q as u16
}

/// Fixed-point scaling of an unsigned 32-bit value.
pub fn scale_by_u32(x: u32, factor: u16) -> (r: u32)
    ensures
        r as int == spec_scale(x as int, factor),
        r <= x,
{
    proof {
        assert((x as int) * (factor as int) <= 0xffff_ffff * 0xffff
            && (x as int) * (factor as int) / 0x10000 <= x) by (nonlinear_arith)
            requires
                x <= 0xffff_ffffu32,
                0 <= factor <= 0xffff,
        ;
    }
    let p: u64 = (x as u64) * (factor as u64);
    let q: u64 = p / 0x10000;
    q as u32
}

/// Rounded integer division: the quotient rounded to nearest, halves up.
pub fn div_round(x: usize, by: usize) -> (r: usize)
    requires
        by >= 1,
        x + by / 2 <= usize::MAX,
    ensures
        r == (x as int + by as int / 2) / by as int,
{
    (x + by / 2) / by
}

/// Squared amplitude of a complex bin.
///
/// Comparing squared amplitudes is equivalent to comparing amplitudes
/// and avoids the square root.
pub fn amplitude_squared(x: Complex) -> (r: u32)
    ensures
        r == x.re as int * x.re as int + x.im as int * x.im as int,
{
    proof {
        assert(0 <= (x.re as int) * (x.re as int) <= 32768 * 32768) by (nonlinear_arith)
            requires
                -32768 <= x.re <= 32767,
        ;
        assert(0 <= (x.im as int) * (x.im as int) <= 32768 * 32768) by (nonlinear_arith)
            requires
                -32768 <= x.im <= 32767,
        ;
    }
    let re2: u32 = ((x.re as i32) * (x.re as i32)) as u32;
    let im2: u32 = ((x.im as i32) * (x.im as i32)) as u32;
    re2 + im2
}

/// The turn fraction that the fixed-point arctangent assigns to a bin:
/// the angle of `(re, im)` mapped from `[0, 2*pi)` onto the raw factor
/// range `0..=u16::MAX`.  A pure function of the two components alone.
pub uninterp spec fn phase_of(re: i16, im: i16) -> u16;

/// Phase of a complex bin, as a raw scaling factor over one full turn.
///
/// Relies on cordic::atan2 (fixed-point CORDIC arctangent with quadrant
/// correction, a pure function of its two arguments); the angle is
/// shifted from (-pi, pi] to [0, 2*pi), divided by 2*pi, and the top
/// sixteen fraction bits are kept.  The arithmetic runs in a fixed type
/// with 31 integer bits: the arctangent's internal quotient can reach
/// 2^15 and its rotation registers about 1.65 times the bin magnitude,
/// both far outside a 16-bit integer part but comfortably inside this
/// one, so no admitted bin overflows.
#[verifier::external_body]
pub fn phase(x: Complex) -> (r: u16)
    ensures
        r == phase_of(x.re, x.im),
{
    let y = fixed::types::I32F32::from_num(x.im);
    let re = fixed::types::I32F32::from_num(x.re);
    let angle = cordic::atan2(y, re);
    let angle = if angle >= 0 {
        angle
    } else {
        angle + (2 * fixed::types::I32F32::PI)
    };
    let turns = angle / fixed::types::I32F32::PI / 2;
    (turns.to_bits() >> (32 - 16)) as u16
}

/// The integer square root: the largest `r` with `r * r <= x`.
pub open spec fn isqrt(x: nat) -> nat
    decreases x,
{
    if x == 0 {
        0
    } else {
        let p = isqrt((x - 1) as nat);
        if (p + 1) * (p + 1) <= x {
            p + 1
        } else {
            p
        }
    }
}

pub proof fn lemma_isqrt_bounds(x: nat)
    ensures
        isqrt(x) * isqrt(x) <= x,
        x < (isqrt(x) + 1) * (isqrt(x) + 1),
    decreases x,
{
    reveal_with_fuel(isqrt, 2);
    if x > 0 {
        lemma_isqrt_bounds((x - 1) as nat);
        let p = isqrt((x - 1) as nat);
        assert(p * p <= x - 1);
        assert(x - 1 < (p + 1) * (p + 1));
        if (p + 1) * (p + 1) <= x {
            assert(isqrt(x) == p + 1);
            assert((p + 1) * (p + 1) < (p + 2) * (p + 2)) by (nonlinear_arith);
            assert(x <= (p + 1) * (p + 1));
            assert(isqrt(x) * isqrt(x) <= x);
            assert(x < (isqrt(x) + 1) * (isqrt(x) + 1));
        } else {
            assert(isqrt(x) == p);
            assert(isqrt(x) * isqrt(x) <= x);
            assert(x < (isqrt(x) + 1) * (isqrt(x) + 1));
        }
    } else {
        assert(isqrt(x) == 0);
        assert(x < (isqrt(x) + 1) * (isqrt(x) + 1)) by (nonlinear_arith)
            requires
                x == 0,
                isqrt(x) == 0,
        ;
    }
}

/// The integer square root never decreases when its argument grows.
pub proof fn lemma_isqrt_monotone(a: nat, b: nat)
    requires
        a <= b,
    ensures
        isqrt(a) <= isqrt(b),
{
    lemma_isqrt_bounds(a);
    lemma_isqrt_bounds(b);
    if isqrt(a) > isqrt(b) {
        assert((isqrt(b) + 1) * (isqrt(b) + 1) <= isqrt(a) * isqrt(a)) by (nonlinear_arith)
            requires
                isqrt(b) + 1 <= isqrt(a),
        ;
    }
}

/// Any value pinned between consecutive squares is the integer square root.
pub proof fn lemma_isqrt_unique(x: nat, r: nat)
    requires
        r * r <= x,
        x < (r + 1) * (r + 1),
    ensures
        r == isqrt(x),
{
    lemma_isqrt_bounds(x);
    let s = isqrt(x);
    if r < s {
        assert((r + 1) * (r + 1) <= s * s) by (nonlinear_arith)
            requires
                r + 1 <= s,
        ;
    }
    if s < r {
        assert((s + 1) * (s + 1) <= r * r) by (nonlinear_arith)
            requires
                s + 1 <= r,
        ;
    }
}

/// Square root of a squared amplitude.
///
/// Intended for the large values `amplitude_squared` returns; all
/// fractional precision is discarded.
pub fn amplitude_sqrt(x: u32) -> (r: u16)
    ensures
        r == isqrt(x as nat),
{
    let mut lo: u32 = 0;
    let mut hi: u32 = 0x10000;
    proof {
        assert((0x10000int) * (0x10000int) > u32::MAX as int) by (nonlinear_arith);
    }
    while lo + 1 < hi
        invariant
            lo < hi <= 0x10000,
            lo as int * lo as int <= x as int,
            (x as int) < (hi as int) * (hi as int),
        decreases hi - lo,
    {
        let mid: u32 = lo + (hi - lo) / 2;
        proof {
            assert(mid as int * mid as int <= 0xffff * 0xffff) by (nonlinear_arith)
                requires
                    mid <= 0xffff,
            ;
        }
        if mid * mid <= x {
            lo = mid;
        } else {
            hi = mid;
        }
    }
    proof {
        lemma_isqrt_unique(x as nat, lo as nat);
    }
    lo as u16
}

} // verus!
