//! Spectral peak analysis.
//!
//! The magnitude spectrum is scanned once for ridges (local maxima);
//! the highest ridges are then selected one by one, culled against a
//! minimum-frequency bin, an absolute noise floor and a user-controlled
//! threshold, and each surviving ridge's frequency is refined from the
//! shape of its two neighbouring bins.

use vstd::prelude::*;

use crate::complex::Complex;
use crate::control;
use crate::math::{
    amplitude_sqrt, amplitude_squared, isqrt, lemma_isqrt_bounds, phase, phase_of, spec_scale,
    ScalingFactor,
};
use crate::time::{Duration, TICK_HZ};

verus! {

/// Maximum number of peaks one processing cycle may emit.  The pulse
/// table capacity is derived from this; exceeding it would be a
/// programming error, not a runtime condition.
pub const MAX_PEAKS: usize = 8;

/// Min amplitude for an FFT bin to count as a peak.  A second,
/// user-controlled threshold is applied in proportion to the amplitude
/// of the highest peak.
pub const NOISE_FLOOR_AMPLITUDE: u16 = 100;

/// Each FFT bin is this many thousandths of a hertz apart, for the
/// configured sample rate and buffer length.
pub const FREQ_RESOLUTION_X1000: usize = 8932;

/// Peaks above this frequency are rejected.
pub const MAX_FREQ: u16 = 4573;

/// Peaks at or below the bin of this frequency are rejected.
pub const MIN_FREQ: u16 = 20;

/// Raw scaling factor of the optional fixed frequency multiplier
/// applied after refinement (zero leaves frequencies unchanged).
pub const NIGHTCORE_RAW: u16 = 0;

/// The first bin after DC; scanning for ridges starts here.
pub const FIRST_NON_DC_BIN: usize = 1;

/// The squared amplitude of a bin, the comparison key for all peak
/// decisions.
pub open spec fn amp_sq(c: Complex) -> int {
    c.re * c.re + c.im * c.im
}

/// The amplitude of a bin: the integer square root of its squared
/// amplitude.
pub open spec fn amp(c: Complex) -> int {
    isqrt(amp_sq(c) as nat) as int
}

/// The first bin whose nominal frequency is above the configured
/// minimum; peaks at or below it are rejected.
pub open spec fn min_freq_bin() -> int {
    (MIN_FREQ as int * 1000 + FREQ_RESOLUTION_X1000 as int / 2) / FREQ_RESOLUTION_X1000 as int
}

/// The amplitude a peak must reach once a highest peak of amplitude
/// `h` is known: the control value mapped onto the range from the noise
/// floor up to `h`.
pub open spec fn threshold_value(ctl_raw: u16, h: u16) -> int {
    NOISE_FLOOR_AMPLITUDE + spec_scale((h - NOISE_FLOOR_AMPLITUDE) as int, ctl_raw)
}

/// The end of the ascent that starts at bin `i`: the first bin from `i`
/// on whose successor's squared amplitude drops.
pub open spec fn ascend(bins: Seq<Complex>, i: int) -> int
    decreases bins.len() - i
        when 0 <= i < bins.len()
{
    if i + 1 >= bins.len() {
        i
    } else if amp_sq(bins[i + 1]) < amp_sq(bins[i]) {
        i
    } else {
        ascend(bins, i + 1)
    }
}

/// The end of the descent that starts at bin `i`: the first bin from
/// `i` on whose successor's squared amplitude rises.
pub open spec fn descend(bins: Seq<Complex>, i: int) -> int
    decreases bins.len() - i
        when 0 <= i < bins.len()
{
    if i + 1 >= bins.len() {
        i
    } else if amp_sq(bins[i + 1]) > amp_sq(bins[i]) {
        i
    } else {
        descend(bins, i + 1)
    }
}

pub proof fn lemma_ascend_props(bins: Seq<Complex>, i: int)
    requires
        0 <= i < bins.len(),
    ensures
        i <= ascend(bins, i) < bins.len(),
    decreases bins.len() - i,
{
    if i + 1 < bins.len() && !(amp_sq(bins[i + 1]) < amp_sq(bins[i])) {
        lemma_ascend_props(bins, i + 1);
    }
}

pub proof fn lemma_descend_props(bins: Seq<Complex>, i: int)
    requires
        0 <= i < bins.len(),
    ensures
        i <= descend(bins, i) < bins.len(),
    decreases bins.len() - i,
{
    if i + 1 < bins.len() && !(amp_sq(bins[i + 1]) > amp_sq(bins[i])) {
        lemma_descend_props(bins, i + 1);
    }
}

/// Each ridge ends strictly right of where it began: the trough after
/// the ridge at `left` lies beyond `left`.
pub proof fn lemma_scan_progress(bins: Seq<Complex>, left: int)
    requires
        0 <= left,
        left + 1 < bins.len(),
    ensures
        left < descend(bins, ascend(bins, left)) < bins.len(),
{
    let c = ascend(bins, left);
    lemma_ascend_props(bins, left);
    lemma_descend_props(bins, c);
    if c == left {
        lemma_ascend_props(bins, left + 1);
        assert(amp_sq(bins[left + 1]) < amp_sq(bins[left]));
        assert(descend(bins, left) == descend(bins, left + 1));
        lemma_descend_props(bins, left + 1);
    }
}

/// The shape at the end of an ascent: the bin behind the crest never
/// exceeds it (when the ascent moved at all), and the bin past it is
/// strictly below (when one exists).
pub proof fn lemma_ascend_shape(bins: Seq<Complex>, i: int)
    requires
        0 <= i < bins.len(),
    ensures
        i < ascend(bins, i) ==> amp_sq(bins[ascend(bins, i) - 1]) <= amp_sq(bins[ascend(bins, i)]),
        ascend(bins, i) + 1 < bins.len() ==> amp_sq(bins[ascend(bins, i) + 1]) < amp_sq(
            bins[ascend(bins, i)],
        ),
    decreases bins.len() - i,
{
    if i + 1 < bins.len() && !(amp_sq(bins[i + 1]) < amp_sq(bins[i])) {
        lemma_ascend_shape(bins, i + 1);
        lemma_ascend_props(bins, i + 1);
    }
}

/// The shape at the end of a descent: the bin past the trough rises
/// strictly (when one exists), so the next ascent always moves.
pub proof fn lemma_descend_shape(bins: Seq<Complex>, i: int)
    requires
        0 <= i < bins.len(),
    ensures
        descend(bins, i) + 1 < bins.len() ==> amp_sq(bins[descend(bins, i) + 1]) > amp_sq(
            bins[descend(bins, i)],
        ),
    decreases bins.len() - i,
{
    if i + 1 < bins.len() && !(amp_sq(bins[i + 1]) > amp_sq(bins[i])) {
        lemma_descend_shape(bins, i + 1);
    }
}

/// The bins of every local maximum, found in one pass: ascend from the
/// last trough to a crest, record it, descend to the next trough, and
/// continue from there.
pub open spec fn scan(bins: Seq<Complex>, left: int) -> Seq<int>
    decreases bins.len() - left
        when 0 <= left
        via scan_decreases
{
    if left + 1 >= bins.len() {
        Seq::empty()
    } else {
        let c = ascend(bins, left);
        let r = descend(bins, c);
        seq![c] + scan(bins, r)
    }
}

#[via_fn]
proof fn scan_decreases(bins: Seq<Complex>, left: int) {
    if 0 <= left && left + 1 < bins.len() {
        lemma_scan_progress(bins, left);
    }
}

/// The shape of every recorded ridge: its squared amplitude strictly
/// dominates the bin to its right (or it sits at the spectrum's edge),
/// and dominates the bin to its left too — except possibly a ridge
/// sitting exactly where the whole scan began, whose left neighbour the
/// scan never examined.
pub proof fn lemma_scan_center_shape(bins: Seq<Complex>, left: int)
    requires
        0 <= left,
    ensures
        forall|k: int|
            0 <= k < scan(bins, left).len() ==> {
                let c = #[trigger] scan(bins, left)[k];
                &&& (c + 1 < bins.len() ==> amp_sq(bins[c + 1]) < amp_sq(bins[c]))
                &&& ((k > 0 || c > left) ==> amp_sq(bins[c - 1]) <= amp_sq(bins[c]))
            },
    decreases bins.len() - left,
{
    if left + 1 < bins.len() {
        let c0 = ascend(bins, left);
        lemma_ascend_props(bins, left);
        lemma_ascend_shape(bins, left);
        lemma_scan_progress(bins, left);
        let r = descend(bins, c0);
        lemma_descend_shape(bins, c0);
        lemma_scan_center_shape(bins, r);
        if scan(bins, r).len() > 0 {
            // The next ascent always moves off the trough, so every
            // later ridge dominates its left neighbour unconditionally.
            assert(scan(bins, r)[0] == ascend(bins, r));
            assert(r + 1 < bins.len());
            assert(ascend(bins, r) == ascend(bins, r + 1));
            lemma_ascend_props(bins, r + 1);
        }
        assert forall|k: int| 0 <= k < scan(bins, left).len() implies {
            let c = #[trigger] scan(bins, left)[k];
            &&& (c + 1 < bins.len() ==> amp_sq(bins[c + 1]) < amp_sq(bins[c]))
            &&& ((k > 0 || c > left) ==> amp_sq(bins[c - 1]) <= amp_sq(bins[c]))
        } by {
            if k > 0 {
                assert(scan(bins, left)[k] == scan(bins, r)[k - 1]);
            }
        }
    }
}

/// Law: the refined position of every ridge the scan records lies
/// within half a bin of its nominal bin frequency.  The one exception
/// is a ridge sitting exactly where the scan began (the first bin after
/// the zero-frequency bin), whose unexamined left neighbour may
/// dominate it; there the refined position saturates at zero instead.
pub proof fn lemma_ridge_refine_bounded(bins: Seq<Complex>, left: int, k: int)
    requires
        1 <= left,
        0 <= k < scan(bins, left).len(),
        k > 0 || scan(bins, left)[k] > left,
    ensures
        ({
            let c = scan(bins, left)[k];
            &&& c * FREQ_RESOLUTION_X1000 as int - FREQ_RESOLUTION_X1000 as int / 2
                <= refine_x1000(bins, c)
            &&& refine_x1000(bins, c) <= c * FREQ_RESOLUTION_X1000 as int
                + FREQ_RESOLUTION_X1000 as int / 2
        }),
{
    let c = scan(bins, left)[k];
    lemma_scan_centers(bins, left);
    lemma_scan_center_shape(bins, left);
    assert(amp_sq(bins[c]) >= 0) by (nonlinear_arith);
    assert(amp_sq(bins[c - 1]) >= 0) by (nonlinear_arith);
    crate::math::lemma_isqrt_monotone(amp_sq(bins[c - 1]) as nat, amp_sq(bins[c]) as nat);
    if c + 1 < bins.len() {
        assert(amp_sq(bins[c + 1]) >= 0) by (nonlinear_arith);
        crate::math::lemma_isqrt_monotone(amp_sq(bins[c + 1]) as nat, amp_sq(bins[c]) as nat);
    }
    lemma_refine_bounded(bins, c);
}

/// The refined peak position in thousandths of hertz: the nominal bin
/// frequency, shifted up to half a bin toward the larger neighbour by
/// the ratio of the normalized neighbour and center amplitudes
/// (saturating at zero rather than leaving the scale downward).
pub open spec fn refine_x1000(bins: Seq<Complex>, i: int) -> int {
    let center_a = amp(bins[i]);
    let left_a = if i >= 1 {
        amp(bins[i - 1])
    } else {
        center_a
    };
    let right_a = if i + 1 < bins.len() {
        amp(bins[i + 1])
    } else {
        center_a
    };
    let is_positive = left_a < right_a;
    let small = if is_positive {
        left_a
    } else {
        right_a
    };
    let large = if is_positive {
        right_a
    } else {
        left_a
    };
    let den = if center_a >= small {
        center_a - small + 1
    } else {
        1
    };
    let adjustment = ((large - small + 1) * FREQ_RESOLUTION_X1000 as int / den) / 2;
    let center_freq = i * FREQ_RESOLUTION_X1000 as int;
    if is_positive {
        center_freq + adjustment
    } else if center_freq >= adjustment {
        center_freq - adjustment
    } else {
        0
    }
}

/// The refined frequency of the peak at bin `i`, in hertz: the refined
/// position rounded to whole hertz, with the optional fixed multiplier
/// applied.  Nothing if the result overshoots the configured maximum or
/// rounds to zero.
pub open spec fn refine_spec(bins: Seq<Complex>, i: int, nightcore_raw: u16) -> Option<u16> {
    let rounded = (refine_x1000(bins, i) + 500) / 1000;
    let shifted = rounded + spec_scale(rounded, nightcore_raw);
    if shifted > MAX_FREQ as int || shifted == 0 {
        Option::None
    } else {
        Option::Some(shifted as u16)
    }
}

/// Law: wherever the center bin's amplitude is no smaller than both its
/// neighbours', the refined position lies within half a bin of the
/// nominal bin frequency.  (At a selected ridge the scan guarantees the
/// neighbour on the ascent side; the first bin after a dominant zero
/// bin is the one shape that can escape, and there the position
/// saturates at zero instead.)
pub proof fn lemma_refine_bounded(bins: Seq<Complex>, i: int)
    requires
        1 <= i < bins.len(),
        amp(bins[i - 1]) <= amp(bins[i]),
        i + 1 < bins.len() ==> amp(bins[i + 1]) <= amp(bins[i]),
    ensures
        i * FREQ_RESOLUTION_X1000 as int - FREQ_RESOLUTION_X1000 as int / 2 <= refine_x1000(
            bins,
            i,
        ),
        refine_x1000(bins, i) <= i * FREQ_RESOLUTION_X1000 as int + FREQ_RESOLUTION_X1000 as int
            / 2,
{
    let center_a = amp(bins[i]);
    let left_a = amp(bins[i - 1]);
    let right_a = if i + 1 < bins.len() {
        amp(bins[i + 1])
    } else {
        center_a
    };
    let is_positive = left_a < right_a;
    let small = if is_positive {
        left_a
    } else {
        right_a
    };
    let large = if is_positive {
        right_a
    } else {
        left_a
    };
    let res = FREQ_RESOLUTION_X1000 as int;
    let num = (large - small + 1) * res;
    let den = if center_a >= small {
        center_a - small + 1
    } else {
        1
    };
    assert(num <= den * res) by (nonlinear_arith)
        requires
            num == (large - small + 1) * res,
            large - small + 1 <= den,
            res > 0,
    ;
    assert(num / den <= res) by {
        vstd::arithmetic::div_mod::lemma_div_is_ordered(num, den * res, den);
        vstd::arithmetic::div_mod::lemma_div_multiples_vanish(res, den);
        assert(den * res == res * den) by (nonlinear_arith);
    }
    assert(num >= 0) by (nonlinear_arith)
        requires
            num == (large - small + 1) * res,
            large >= small,
            res > 0,
    ;
    vstd::arithmetic::div_mod::lemma_div_is_ordered(0, num, den);
    vstd::arithmetic::div_mod::lemma_div_is_ordered(num / den, res, 2);
    assert(i * res >= res) by (nonlinear_arith)
        requires
            i >= 1,
            res > 0,
    ;
}

/// Refine the frequency of the peak at bin `i` from the shape of its
/// two neighbouring bins (the center's own amplitude stands in for a
/// neighbour beyond the spectrum's edge), apply the optional fixed
/// multiplier, and reject results that overshoot the maximum frequency
/// or round to zero.
pub fn refine_frequency(bins: &Vec<Complex>, i: usize, nightcore: ScalingFactor) -> (r: Option<
    u16,
>)
    requires
        1 <= i < bins@.len(),
        bins@.len() <= 0xffff,
    ensures
        r == refine_spec(bins@, i as int, nightcore.raw),
        r is Some ==> 1 <= r->0 <= MAX_FREQ,
{
    let center_a: u16 = amplitude_sqrt(amplitude_squared(bins[i]));
    let left_a: u16 = amplitude_sqrt(amplitude_squared(bins[i - 1]));
    let right_a: u16 = if i + 1 < bins.len() {
        amplitude_sqrt(amplitude_squared(bins[i + 1]))
    } else {
        center_a
    };
    let is_positive = left_a < right_a;
    let small: u16 = if is_positive {
        left_a
    } else {
        right_a
    };
    let large: u16 = if is_positive {
        right_a
    } else {
        left_a
    };
    let den: u32 = if center_a >= small {
        (center_a - small) as u32 + 1
    } else {
        1
    };
    let num: u32 = ((large - small) as u32 + 1) * (FREQ_RESOLUTION_X1000 as u32);
    let adjustment: u32 = (num / den) / 2;
    proof {
        assert(i as int * FREQ_RESOLUTION_X1000 as int <= 0xffff * 8932) by (nonlinear_arith)
            requires
                i <= 0xffff,
        ;
    }
    let center_freq: u32 = (i as u32) * (FREQ_RESOLUTION_X1000 as u32);
    let real_x1000: u32 = if is_positive {
        center_freq + adjustment
    } else if center_freq >= adjustment {
        center_freq - adjustment
    } else {
        0
    };
    let rounded: u32 = (real_x1000 + 500) / 1000;
    let shifted: u32 = rounded + crate::math::scale_by_u32(rounded, nightcore.raw);
    if shifted > MAX_FREQ as u32 || shifted == 0 {
        None
    } else {
        Some(shifted as u16)
    }
}

/// An unfiltered local maximum found by the ridge scan, tagged by the
/// bin of its highest point, or nothing once the selection pass has
/// consumed it.
#[derive(Copy, Clone, Debug)]
pub struct ScratchPeak {
    pub center: Option<u16>,
}

impl ScratchPeak {
    pub fn new(center: usize) -> (r: ScratchPeak)
        requires
            1 <= center <= 0xffff,
        ensures
            r.center == Some(center as u16),
    {
        ScratchPeak { center: Some(center as u16) }
    }

    /// The bin of the highest point in the peak, or nothing if the peak
    /// has been consumed.
    pub fn i(self) -> (r: Option<usize>)
        ensures
            r == (match self.center {
                Some(c) => Some(c as usize),
                None => None,
            }),
    {
        match self.center {
            Some(c) => Some(c as usize),
            None => None,
        }
    }

    pub fn consume(&mut self)
        ensures
            final(self).center is None,
    {
        self.center = None;
    }
}

/// Every live entry points at a bin after DC and inside the spectrum.
pub open spec fn scratch_wf(s: Seq<ScratchPeak>, len: int) -> bool {
    forall|k: int|
        0 <= k < s.len() ==> (match (#[trigger] s[k]).center {
            Some(c) => 1 <= c < len,
            None => true,
        })
}

/// All ridge bins lie at or right of where the scan began, inside the
/// spectrum.
pub proof fn lemma_scan_centers(bins: Seq<Complex>, left: int)
    requires
        0 <= left,
    ensures
        forall|k: int|
            0 <= k < scan(bins, left).len() ==> left <= #[trigger] scan(bins, left)[k]
                < bins.len(),
    decreases bins.len() - left,
{
    if left + 1 < bins.len() {
        let c = ascend(bins, left);
        lemma_ascend_props(bins, left);
        lemma_scan_progress(bins, left);
        let r = descend(bins, c);
        lemma_scan_centers(bins, r);
        assert forall|k: int| 0 <= k < scan(bins, left).len() implies left <= #[trigger] scan(
            bins,
            left,
        )[k] < bins.len() by {
            if k > 0 {
                assert(scan(bins, left)[k] == scan(bins, r)[k - 1]);
            }
        }
    }
}

/// The scratch table the ridge scan leaves behind: one live entry per
/// ridge, in scan order.
pub open spec fn scratch_of(bins: Seq<Complex>) -> Seq<ScratchPeak> {
    Seq::new(
        scan(bins, FIRST_NON_DC_BIN as int).len(),
        |k: int| ScratchPeak { center: Some(scan(bins, FIRST_NON_DC_BIN as int)[k] as u16) },
    )
}

/// The index of the live scratch entry with the highest squared
/// amplitude, scanning from `i` with `best` the best so far (negative
/// for none yet); the earliest index wins ties.
pub open spec fn argmax_from(
    bins: Seq<Complex>,
    scratch: Seq<ScratchPeak>,
    i: int,
    best: int,
) -> int
    decreases scratch.len() - i,
{
    if i < 0 || i >= scratch.len() {
        best
    } else {
        let b = match scratch[i].center {
            Some(c) => {
                if best < 0 {
                    i
                } else {
                    match scratch[best].center {
                        Some(cb) => {
                            if amp_sq(bins[c as int]) > amp_sq(bins[cb as int]) {
                                i
                            } else {
                                best
                            }
                        },
                        None => i,
                    }
                }
            },
            None => best,
        };
        argmax_from(bins, scratch, i + 1, b)
    }
}

/// The live scratch entry with the highest squared amplitude, or
/// negative if none is live.
pub open spec fn argmax(bins: Seq<Complex>, scratch: Seq<ScratchPeak>) -> int {
    argmax_from(bins, scratch, 0, -1)
}

/// The peak stored for a selected bin: its refined frequency, its
/// amplitude, and its phase as a turn fraction.
pub open spec fn peak_of(bin: Complex, freq: u16) -> Peak {
    Peak {
        freq,
        amplitude: amp(bin) as u16,
        phase: ScalingFactor { raw: phase_of(bin.re, bin.im) },
    }
}

/// What the selection pass emits: up to `slots` peaks, each the highest
/// still-unconsumed ridge in turn.  A ridge at or below the minimum
/// frequency bin is skipped; one below the noise floor stops the pass;
/// once a highest amplitude is known, one below the control threshold
/// stops the pass too; a ridge whose refined frequency is rejected is
/// skipped.
pub open spec fn select(
    bins: Seq<Complex>,
    scratch: Seq<ScratchPeak>,
    ctl_raw: u16,
    highest: Option<u16>,
    slots: nat,
) -> Seq<Peak>
    decreases slots,
{
    if slots == 0 {
        Seq::empty()
    } else {
        let j = argmax(bins, scratch);
        if j < 0 || j >= scratch.len() {
            Seq::empty()
        } else {
            match scratch[j].center {
                None => Seq::empty(),
                Some(cu) => {
                    let c = cu as int;
                    let scratch2 = scratch.update(j, ScratchPeak { center: None });
                    if c <= min_freq_bin() {
                        select(bins, scratch2, ctl_raw, highest, (slots - 1) as nat)
                    } else {
                        let a = amp(bins[c]);
                        if a < NOISE_FLOOR_AMPLITUDE as int {
                            Seq::empty()
                        } else {
                            let pass = match highest {
                                None => true,
                                Some(h) => a >= threshold_value(ctl_raw, h),
                            };
                            if !pass {
                                Seq::empty()
                            } else {
                                let h2 = match highest {
                                    None => Some(a as u16),
                                    Some(h) => Some(h),
                                };
                                match refine_spec(bins, c, NIGHTCORE_RAW) {
                                    Some(fr) => seq![peak_of(bins[c], fr)] + select(
                                        bins,
                                        scratch2,
                                        ctl_raw,
                                        h2,
                                        (slots - 1) as nat,
                                    ),
                                    None => select(bins, scratch2, ctl_raw, h2, (slots - 1) as nat),
                                }
                            }
                        }
                    }
                },
            }
        }
    }
}

/// The selection pass never emits more peaks than it has slots, and
/// every peak it emits is valid.
pub proof fn lemma_select_props(
    bins: Seq<Complex>,
    scratch: Seq<ScratchPeak>,
    ctl_raw: u16,
    highest: Option<u16>,
    slots: nat,
)
    ensures
        select(bins, scratch, ctl_raw, highest, slots).len() <= slots,
        forall|k: int|
            0 <= k < select(bins, scratch, ctl_raw, highest, slots).len() ==> (#[trigger] select(
                bins,
                scratch,
                ctl_raw,
                highest,
                slots,
            )[k]).wf(),
    decreases slots,
{
    if slots > 0 {
        let j = argmax(bins, scratch);
        if 0 <= j < scratch.len() {
            match scratch[j].center {
                None => {},
                Some(cu) => {
                    let c = cu as int;
                    let scratch2 = scratch.update(j, ScratchPeak { center: None });
                    lemma_select_props(bins, scratch2, ctl_raw, highest, (slots - 1) as nat);
                    let a = amp(bins[c]);
                    let h2: Option<u16> = match highest {
                        None => Some(a as u16),
                        Some(h) => Some(h),
                    };
                    lemma_select_props(bins, scratch2, ctl_raw, h2, (slots - 1) as nat);
                },
            }
        }
    }
}

/// Law: a spectrum whose every bin sits below the noise floor yields no
/// peaks, whatever the scratch table, the control setting and the slot
/// count.
pub proof fn lemma_below_floor_yields_nothing(
    bins: Seq<Complex>,
    scratch: Seq<ScratchPeak>,
    ctl_raw: u16,
    highest: Option<u16>,
    slots: nat,
)
    requires
        scratch_wf(scratch, bins.len() as int),
        forall|k: int| 0 <= k < bins.len() ==> amp(#[trigger] bins[k]) < NOISE_FLOOR_AMPLITUDE,
    ensures
        select(bins, scratch, ctl_raw, highest, slots) == Seq::<Peak>::empty(),
    decreases slots,
{
    if slots > 0 {
        let j = argmax(bins, scratch);
        if 0 <= j < scratch.len() {
            match scratch[j].center {
                None => {},
                Some(cu) => {
                    let scratch2 = scratch.update(j, ScratchPeak { center: None });
                    assert(scratch_wf(scratch2, bins.len() as int));
                    lemma_below_floor_yields_nothing(
                        bins,
                        scratch2,
                        ctl_raw,
                        highest,
                        (slots - 1) as nat,
                    );
                },
            }
        }
    }
}

/// Ascending through a run of silent bins reaches the one loud bin.
proof fn lemma_ascend_to_spike(bins: Seq<Complex>, i: int, j: int)
    requires
        0 <= i <= j < bins.len(),
        forall|k: int| i <= k < j ==> amp_sq(#[trigger] bins[k]) == 0,
        amp_sq(bins[j]) > 0,
        j + 1 < bins.len() ==> amp_sq(bins[j + 1]) < amp_sq(bins[j]),
    ensures
        ascend(bins, i) == j,
    decreases j - i,
{
    if i < j {
        lemma_ascend_to_spike(bins, i + 1, j);
    }
}

/// Descending through silent bins runs to the end of the spectrum.
proof fn lemma_descend_through_silence(bins: Seq<Complex>, i: int, j: int)
    requires
        0 <= j <= i < bins.len(),
        amp_sq(bins[j]) > 0,
        forall|k: int| j < k < bins.len() ==> amp_sq(#[trigger] bins[k]) == 0,
    ensures
        descend(bins, i) == bins.len() - 1,
    decreases bins.len() - i,
{
    if i + 1 < bins.len() {
        lemma_descend_through_silence(bins, i + 1, j);
    }
}

/// Law: a spectrum with a single loud bin above the noise floor, clear
/// of the minimum-frequency bin, and all other bins silent yields
/// exactly the one peak at that bin (whenever its refined frequency is
/// accepted).
pub proof fn lemma_single_spike_yields_one_peak(bins: Seq<Complex>, j: int, ctl_raw: u16)
    requires
        bins.len() <= 0xffff,
        min_freq_bin() < j < bins.len(),
        1 <= j,
        forall|k: int| 0 <= k < bins.len() && k != j ==> (#[trigger] bins[k]) == (Complex {
            re: 0i16,
            im: 0i16,
        }),
        amp(bins[j]) >= NOISE_FLOOR_AMPLITUDE,
        refine_spec(bins, j, NIGHTCORE_RAW) is Some,
    ensures
        select(bins, scratch_of(bins), ctl_raw, None, MAX_PEAKS as nat) == seq![
            peak_of(bins[j], refine_spec(bins, j, NIGHTCORE_RAW)->0),
        ],
{
    // The one loud bin is the one ridge the scan records.
    assert(amp_sq(bins[j]) >= 0) by (nonlinear_arith);
    assert(amp_sq(bins[j]) > 0) by {
        lemma_isqrt_bounds(amp_sq(bins[j]) as nat);
        let r = isqrt(amp_sq(bins[j]) as nat);
        assert(r * r >= 100 * 100) by (nonlinear_arith)
            requires
                r >= 100,
        ;
    }
    assert(forall|k: int|
        0 <= k < bins.len() && k != j ==> amp_sq(#[trigger] bins[k]) == 0);
    lemma_ascend_to_spike(bins, FIRST_NON_DC_BIN as int, j);
    lemma_descend_through_silence(bins, j, j);
    assert(scan(bins, FIRST_NON_DC_BIN as int) == seq![j] + scan(bins, bins.len() - 1));
    assert(scan(bins, bins.len() - 1) == Seq::<int>::empty());
    let centers = scan(bins, FIRST_NON_DC_BIN as int);
    assert(centers =~= seq![j]);
    let scratch = scratch_of(bins);
    assert(scratch.len() == 1 && scratch[0].center == Some(j as u16));

    // Selection takes it, and nothing is left for the later slots.
    let scratch2 = scratch.update(0, ScratchPeak { center: None });
    assert(argmax_from(bins, scratch, 1, 0) == 0);
    assert(argmax(bins, scratch) == argmax_from(bins, scratch, 1, 0));
    let a = amp(bins[j]);
    let fr = refine_spec(bins, j, NIGHTCORE_RAW)->0;
    assert(scratch2[0].center is None);
    assert(argmax_from(bins, scratch2, 1, -1) == -1);
    assert(argmax(bins, scratch2) == argmax_from(bins, scratch2, 1, -1));
    assert(select(bins, scratch2, ctl_raw, Some(a as u16), (MAX_PEAKS - 1) as nat)
        == Seq::<Peak>::empty());
    assert(select(bins, scratch, ctl_raw, None, MAX_PEAKS as nat) == seq![peak_of(bins[j], fr)]
        + Seq::<Peak>::empty());
    assert(seq![peak_of(bins[j], fr)] + Seq::<Peak>::empty() =~= seq![peak_of(bins[j], fr)]);
}

/// Find the peaks of a magnitude spectrum.
///
/// One linear pass records every local maximum as a scratch peak; the
/// selection pass then repeatedly takes the highest still-unconsumed
/// ridge, culls it against the minimum-frequency bin, the absolute
/// noise floor and the control-mapped threshold, refines its frequency
/// from the neighbouring bins, and stores the survivors, up to the
/// output capacity.  The scratch table is caller-provided storage and
/// is left with the selected ridges consumed.
#[verifier::rlimit(60)]
pub fn find_peaks(
    bins: &Vec<Complex>,
    scratch_peaks: &mut Vec<ScratchPeak>,
    amplitude_threshold: control::Sample,
    peaks_out: &mut Vec<Peak>,
)
    requires
        bins@.len() <= 0xffff,
    ensures
        final(peaks_out)@ == select(
            bins@,
            scratch_of(bins@),
            amplitude_threshold.value.raw,
            None,
            MAX_PEAKS as nat,
        ),
        final(peaks_out)@.len() <= MAX_PEAKS,
        forall|k: int| 0 <= k < final(peaks_out)@.len() ==> (#[trigger] final(peaks_out)@[k]).wf(),
        final(scratch_peaks)@.len() == scratch_of(bins@).len(),
        forall|k: int|
            0 <= k < final(scratch_peaks)@.len() ==> (#[trigger] final(scratch_peaks)@[k]).center
                == scratch_of(bins@)[k].center || final(scratch_peaks)@[k].center is None,
{
    let ghost centers = scan(bins@, FIRST_NON_DC_BIN as int);
    proof {
        lemma_scan_centers(bins@, FIRST_NON_DC_BIN as int);
    }

    // Phase 1: record every ridge in one pass.
    scratch_peaks.clear();
    let mut left: usize = FIRST_NON_DC_BIN;
    while left + 1 < bins.len()
        invariant
            bins@.len() <= 0xffff,
            1 <= left <= 0xffff,
            centers == scan(bins@, FIRST_NON_DC_BIN as int),
            scan(bins@, left as int).len() + scratch_peaks@.len() == centers.len(),
            forall|k: int|
                0 <= k < scratch_peaks@.len() ==> (#[trigger] scratch_peaks@[k]).center == Some(
                    centers[k] as u16,
                ),
            forall|k: int|
                0 <= k < scan(bins@, left as int).len() ==> #[trigger] scan(bins@, left as int)[k]
                    == centers[scratch_peaks@.len() + k],
            forall|k: int|
                0 <= k < centers.len() ==> 1 <= #[trigger] centers[k] < bins@.len(),
        decreases bins@.len() - left,
    {
        // Step 1: ascend to the crest.
        let mut i: usize = left;
        loop
            invariant
                left <= i < bins@.len(),
                bins@.len() <= 0xffff,
                ascend(bins@, left as int) == ascend(bins@, i as int),
            ensures
                left <= i < bins@.len(),
                i == ascend(bins@, left as int),
            decreases bins@.len() - i,
        {
            if i + 1 >= bins.len() {
                break ;
            }
            if amplitude_squared(bins[i + 1]) < amplitude_squared(bins[i]) {
                break ;
            }
            i = i + 1;
        }
        let center: usize = i;

        // Step 2: descend to the trough.
        let mut d: usize = center;
        loop
            invariant
                center <= d < bins@.len(),
                bins@.len() <= 0xffff,
                descend(bins@, center as int) == descend(bins@, d as int),
            ensures
                center <= d < bins@.len(),
                d == descend(bins@, center as int),
            decreases bins@.len() - d,
        {
            if d + 1 >= bins.len() {
                break ;
            }
            if amplitude_squared(bins[d + 1]) > amplitude_squared(bins[d]) {
                break ;
            }
            d = d + 1;
        }
        let right: usize = d;

        // Step 3: record the ridge; the next one starts at this trough.
        let ghost pre_len = scratch_peaks@.len() as int;
        proof {
            lemma_scan_progress(bins@, left as int);
            assert(scan(bins@, left as int) == seq![center as int] + scan(bins@, right as int));
            assert(scan(bins@, left as int)[0] == center as int);
            assert(centers[pre_len] == center as int);
        }
        scratch_peaks.push(ScratchPeak::new(center));
        proof {
            assert forall|k: int| 0 <= k < scan(bins@, right as int).len() implies #[trigger] scan(
                bins@,
                right as int,
            )[k] == centers[pre_len + 1 + k] by {
                assert(scan(bins@, right as int)[k] == scan(bins@, left as int)[k + 1]);
            }
        }
        left = right;
    }
    proof {
        assert(scan(bins@, left as int).len() == 0);
        assert(scratch_peaks@ =~= scratch_of(bins@));
    }

    // Phase 2: select, cull and refine the highest ridges.
    peaks_out.clear();
    let ghost scratch0 = scratch_peaks@;
    let ghost ctl_raw = amplitude_threshold.value.raw;
    let ghost full = select(bins@, scratch0, ctl_raw, None, MAX_PEAKS as nat);
    proof {
        lemma_select_props(bins@, scratch0, ctl_raw, None, MAX_PEAKS as nat);
    }
    let mut highest: Option<u16> = None;
    let mut done = false;
    let mut slot: usize = 0;
    while slot < MAX_PEAKS
        invariant
            bins@.len() <= 0xffff,
            ctl_raw == amplitude_threshold.value.raw,
            full == select(bins@, scratch0, ctl_raw, None, MAX_PEAKS as nat),
            slot <= MAX_PEAKS,
            scratch_peaks@.len() == scratch0.len(),
            scratch_wf(scratch_peaks@, bins@.len() as int),
            forall|k: int|
                0 <= k < scratch_peaks@.len() ==> (#[trigger] scratch_peaks@[k]).center
                    == scratch0[k].center || scratch_peaks@[k].center is None,
            done ==> peaks_out@ == full,
            !done ==> peaks_out@ + select(
                bins@,
                scratch_peaks@,
                ctl_raw,
                highest,
                (MAX_PEAKS - slot) as nat,
            ) == full,
            match highest {
                Some(h) => NOISE_FLOOR_AMPLITUDE <= h,
                None => true,
            },
        decreases MAX_PEAKS - slot,
    {
        if !done {
            let ghost slots_left = (MAX_PEAKS - slot) as nat;
            let ghost scur = scratch_peaks@;

            // Step 1: find the highest still-unconsumed ridge.
            let mut best_j: usize = 0;
            let mut have_best = false;
            let mut k: usize = 0;
            while k < scratch_peaks.len()
                invariant
                    bins@.len() <= 0xffff,
                    scratch_peaks@ == scur,
                    scratch_wf(scur, bins@.len() as int),
                    k <= scur.len(),
                    have_best ==> best_j < k && scur[best_j as int].center is Some,
                    argmax(bins@, scur) == argmax_from(
                        bins@,
                        scur,
                        k as int,
                        if have_best {
                            best_j as int
                        } else {
                            -1
                        },
                    ),
                decreases scur.len() - k,
            {
                match scratch_peaks[k].i() {
                    Some(c) => {
                        if !have_best {
                            have_best = true;
                            best_j = k;
                        } else {
                            let cb = match scratch_peaks[best_j].i() {
                                Some(cb) => cb,
                                None => 0,
                            };
                            if amplitude_squared(bins[c]) > amplitude_squared(bins[cb]) {
                                best_j = k;
                            }
                        }
                    },
                    None => {},
                }
                k = k + 1;
            }

            if !have_best {
                // No live ridge is left: nothing more can be emitted.
                done = true;
            } else {
                // Step 2: consume it.
                let c: usize = match scratch_peaks[best_j].i() {
                    Some(c) => c,
                    None => 0,
                };
                let mut taken = scratch_peaks[best_j];
                taken.consume();
                scratch_peaks.set(best_j, taken);
                proof {
                    assert(scratch_peaks@ =~= scur.update(
                        best_j as int,
                        ScratchPeak { center: None },
                    ));
                }

                // Step 3: cull ridges at or below the minimum frequency
                // bin (the slot is spent either way).
                let min_bin: usize = crate::math::div_round(
                    MIN_FREQ as usize * 1000,
                    FREQ_RESOLUTION_X1000,
                );
                if c > min_bin {
                    // Step 4: cull everything below the noise floor.
                    let a: u16 = amplitude_sqrt(amplitude_squared(bins[c]));
                    if a < NOISE_FLOOR_AMPLITUDE {
                        done = true;
                    } else {
                        // Step 5: for the second and later peaks, stop
                        // below the control-mapped threshold.
                        let mut proceed = true;
                        match highest {
                            None => {
                                highest = Some(a);
                            },
                            Some(h) => {
                                let thr = amplitude_threshold.to_value_in_range(
                                    NOISE_FLOOR_AMPLITUDE,
                                    h,
                                );
                                if a < thr {
                                    done = true;
                                    proceed = false;
                                }
                            },
                        }
                        if proceed {
                            // Step 6: refine the frequency and store the
                            // peak if the result is usable.
                            match refine_frequency(
                                bins,
                                c,
                                ScalingFactor::from_raw(NIGHTCORE_RAW),
                            ) {
                                Some(freq) => {
                                    let p = Peak::from_bin_and_freq(bins[c], freq);
                                    proof {
                                        assert(p == peak_of(bins@[c as int], freq));
                                    }
                                    peaks_out.push(p);
                                },
                                None => {},
                            }
                        }
                    }
                }
            }
        }
        slot = slot + 1;
    }
}

/// Represents one peak frequency from the FFT, with its amplitude and
/// its phase as a fraction of a full turn.
#[derive(Copy, Clone, PartialEq, Eq, Structural, Debug)]
pub struct Peak {
    pub freq: u16,
    pub amplitude: u16,
    pub phase: ScalingFactor,
}

impl Peak {
    /// A peak is valid when its refined frequency is nonzero and within
    /// the configured maximum.
    pub open spec fn wf(self) -> bool {
        1 <= self.freq <= MAX_FREQ
    }

    /// Build a peak from its spectrum bin and its refined frequency.
    pub fn from_bin_and_freq(bin: Complex, freq: u16) -> (r: Peak)
        requires
            1 <= freq <= MAX_FREQ,
        ensures
            r.wf(),
            r.freq == freq,
            r.amplitude == isqrt(
                (bin.re as int * bin.re as int + bin.im as int * bin.im as int) as nat,
            ),
            r.phase.raw == phase_of(bin.re, bin.im),
    {
        let amplitude: u16 = amplitude_sqrt(amplitude_squared(bin));
        let phase_raw: u16 = phase(bin);
        Peak { freq, amplitude, phase: ScalingFactor::from_raw(phase_raw) }
    }

    pub fn amplitude(&self) -> (r: u16)
        ensures
            r == self.amplitude,
    {
        self.amplitude
    }

    /// The refined frequency, in hertz.
    pub fn freq(&self) -> (r: u32)
        ensures
            r == self.freq,
    {
        self.freq as u32
    }

    /// The pulse period of this frequency: one second of ticks divided
    /// by the frequency, fractional ticks dropped.
    pub fn period(&self) -> (r: Duration)
        requires
            self.wf(),
        ensures
            r.ticks == TICK_HZ as int / self.freq as int,
            1 <= r.ticks <= TICK_HZ,
    {
        proof {
            assert(1 <= TICK_HZ as int / self.freq as int <= TICK_HZ) by (nonlinear_arith)
                requires
                    1 <= self.freq <= TICK_HZ,
            ;
        }
        Duration::from_ticks(TICK_HZ / (self.freq as u32))
    }

    pub fn phase(&self) -> (r: ScalingFactor)
        ensures
            r == self.phase,
    {
        self.phase
    }

    /// The delay of this peak's first pulse: the phase fraction of one
    /// period.
    pub fn phase_offset(&self) -> (r: Duration)
        requires
            self.wf(),
        ensures
            r.ticks == spec_scale(TICK_HZ as int / self.freq as int, self.phase.raw),
            r.ticks <= TICK_HZ,
    {
        let period = self.period();
        let ticks = period.ticks();
        proof {
            assert(TICK_HZ as int / self.freq as int <= 0xffff_ffffu32);
        }
        Duration::from_ticks(crate::math::scale_by_u32(ticks, self.phase.raw))
    }
}

} // verus!
