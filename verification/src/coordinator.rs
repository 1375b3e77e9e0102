//! Per-cycle coordination decisions.
//!
//! The periodic interrupt structure around the signal path makes three
//! kinds of decision: at acquisition, anchor the staged pulse table to
//! the cycle timestamp and pick the next firing point; at a firing,
//! consume the fired pulses and pick the next firing point; in between,
//! turn the just-completed sample buffer into the next cycle's staged
//! table.  All three are pure state transitions here; the caller owns
//! the clock, the locks and the hardware timers.

use vstd::prelude::*;

use crate::adc;
use crate::analysis::{find_peaks, scratch_of, select, Peak, ScratchPeak, MAX_PEAKS, NIGHTCORE_RAW};
use crate::complex::Complex;
use crate::control;
use crate::equalizer;
use crate::fft;
use crate::pulse::{
    adv_pulse, argmin, eff_holdoff, schedule_pulses, Pulse, Pulses, UnadjustedPulses,
    MIN_HOLDOFF_TICKS,
};
use crate::time::{wrap_add, wrap_sub, Duration, Instant};
use crate::window;

verus! {

/// A staged pulse anchored to the acquisition timestamp.
pub open spec fn adjusted_pulse(p: Pulse<Duration>, at: u32) -> Pulse<Instant> {
    Pulse { period: p.period, next: Instant { ticks: wrap_add(at, p.next.ticks) } }
}

/// The acquisition decision: swap the staged table in, anchored at the
/// cycle timestamp, and pick the firing point to arm next (none when
/// the staged table is empty, and the caller then arms no timer).
pub fn acquire_cycle(pulses: &mut Pulses, staged: &UnadjustedPulses, now: Instant) -> (r: Option<
    Instant,
>)
    requires
        staged.wf(),
    ensures
        final(pulses).wf(),
        staged.pulses@.len() == 0 ==> r is None && final(pulses).pulses@.len() == 0
            && final(pulses).holdoff_until == old(pulses).holdoff_until,
        staged.pulses@.len() > 0 ==> {
            let adjusted = Seq::new(
                staged.pulses@.len(),
                |i: int| adjusted_pulse(staged.pulses@[i], now.ticks),
            );
            let h = eff_holdoff(old(pulses).holdoff_until.ticks, now.ticks);
            let adv = Seq::new(adjusted.len(), |i: int| adv_pulse(adjusted[i], now.ticks, h));
            let chosen = adv[argmin(adv, now.ticks)];
            &&& final(pulses).pulses@ == adv
            &&& r == Some(chosen.next)
            &&& wrap_sub(chosen.next.ticks, now.ticks) >= h >= MIN_HOLDOFF_TICKS
        },
{
    pulses.replace_with_adjusted(staged, now);
    proof {
        let adjusted = Seq::new(
            staged.pulses@.len(),
            |i: int| adjusted_pulse(staged.pulses@[i], now.ticks),
        );
        assert(pulses.pulses@ =~= adjusted);
    }
    pulses.next_pulse(now)
}

/// The firing decision: consume the pulses scheduled for the fired
/// instant and pick the firing point to arm next.  When no pulse
/// matched the instant, the firing raced a swap; the caller logs the
/// error and arms nothing, and the next acquisition self-corrects.
pub fn fire_cycle(pulses: &mut Pulses, now: Instant) -> (r: (Result<(), ()>, Option<Instant>))
    requires
        old(pulses).wf(),
    ensures
        final(pulses).wf(),
        r.0 is Ok <==> exists|i: int|
            0 <= i < old(pulses).pulses@.len() && (#[trigger] old(pulses).pulses@[i]).next == now,
        r.0 is Err ==> r.1 is None && final(pulses).pulses@ == old(pulses).pulses@
            && final(pulses).holdoff_until == old(pulses).holdoff_until,
        r.0 is Ok ==> {
            let consumed = Seq::new(
                old(pulses).pulses@.len(),
                |i: int|
                    if old(pulses).pulses@[i].next == now {
                        Pulse {
                            period: old(pulses).pulses@[i].period,
                            next: Instant {
                                ticks: wrap_add(
                                    old(pulses).pulses@[i].next.ticks,
                                    old(pulses).pulses@[i].period.ticks,
                                ),
                            },
                        }
                    } else {
                        old(pulses).pulses@[i]
                    },
            );
            let h = eff_holdoff(old(pulses).holdoff_until.ticks, now.ticks);
            let adv = Seq::new(consumed.len(), |i: int| adv_pulse(consumed[i], now.ticks, h));
            &&& consumed.len() > 0
            &&& final(pulses).pulses@ == adv
            &&& r.1 == Some(adv[argmin(adv, now.ticks)].next)
            &&& wrap_sub(adv[argmin(adv, now.ticks)].next.ticks, now.ticks) >= MIN_HOLDOFF_TICKS
        },
{
    let consumed = pulses.try_consume_pulse(now);
    if consumed.is_err() {
        proof {
            assert(pulses.pulses@ =~= old(pulses).pulses@);
        }
        return (consumed, None);
    }
    let ghost mid = pulses.pulses@;
    let ghost hold = pulses.holdoff_until;
    let next = pulses.next_pulse(now);
    proof {
        let consumed_seq = Seq::new(
            old(pulses).pulses@.len(),
            |i: int|
                if old(pulses).pulses@[i].next == now {
                    Pulse {
                        period: old(pulses).pulses@[i].period,
                        next: Instant {
                            ticks: wrap_add(
                                old(pulses).pulses@[i].next.ticks,
                                old(pulses).pulses@[i].period.ticks,
                            ),
                        },
                    }
                } else {
                    old(pulses).pulses@[i]
                },
        );
        assert(mid =~= consumed_seq);
        let h = eff_holdoff(hold.ticks, now.ticks);
        let adv_mid = Seq::new(mid.len(), |i: int| adv_pulse(mid[i], now.ticks, h));
        let adv_con = Seq::new(
            consumed_seq.len(),
            |i: int| adv_pulse(consumed_seq[i], now.ticks, h),
        );
        assert(adv_mid =~= adv_con);
    }
    (consumed, next)
}

/// The deadline check: whether a cycle's processing ran past its
/// budget.  A miss is reported as a warning with the measured duration
/// and the cycle carries on with whatever state exists; it is never
/// aborted.
pub fn deadline_missed(start: Instant, now: Instant, budget: Duration) -> (r: bool)
    ensures
        r == (wrap_sub(now.ticks, start.ticks) > budget.ticks),
{
    now.offset_from(start).ticks() > budget.ticks()
}

/// The spectrum one processing cycle analyses: the conditioned samples,
/// windowed and zero-padded to the transform length, paired into
/// complex bins, transformed, and cut to the non-negative frequencies.
pub open spec fn cycle_spectrum(
    raw: Seq<u16>,
    window: Seq<u16>,
    sin: Seq<i16>,
    fft_len: int,
) -> Seq<Complex> {
    let padded = Seq::new(
        fft_len as nat,
        |k: int|
            if k < raw.len() / 2 {
                window::windowed_sample(
                    adc::processed_sample(raw[2 * k], raw[2 * k + 1]),
                    window[k],
                )
            } else {
                0
            },
    );
    let paired = Seq::new(
        (fft_len / 2) as nat,
        |k: int| Complex { re: padded[2 * k] as i16, im: padded[2 * k + 1] as i16 },
    );
    fft::fft_spec(paired, sin, fft::fft_log2((fft_len / 2) as nat)).take(fft_len / 4)
}

/// The processing decision: turn one completed raw buffer into the next
/// cycle's staged pulse table, and hand back the peaks for the
/// indicator outputs.  The equalizer stage is a configuration choice.
#[verifier::rlimit(100)]
pub fn process_buffer(
    raw: &Vec<u16>,
    window: &Vec<u16>,
    sin: &Vec<i16>,
    fft_len: usize,
    equalize: bool,
    amplitude_threshold: control::Sample,
    scratch: &mut Vec<ScratchPeak>,
    peaks_out: &mut Vec<Peak>,
    staged: &mut UnadjustedPulses,
)
    requires
        raw@.len() % 2 == 0,
        window@.len() == raw@.len() / 2,
        forall|k: int| 0 <= k < raw@.len() ==> (#[trigger] raw@[k]) <= crate::math::MAX_POSSIBLE_SAMPLE,
        raw@.len() / 2 <= fft_len,
        4 <= fft_len <= 0x10000,
        fft_len % 4 == 0,
        fft_len / 2 == vstd::arithmetic::power2::pow2(fft::fft_log2((fft_len / 2) as nat)),
        fft::fft_log2((fft_len / 2) as nat) <= 16,
        fft::sin_table_wf(sin@, fft_len as int / 2),
    ensures
        ({
            let bins = if equalize {
                Seq::new(
                    (fft_len / 4) as nat,
                    |i: int|
                        {
                            let s = cycle_spectrum(raw@, window@, sin@, fft_len as int);
                            Complex {
                                re: equalizer::equalized(
                                    s[i].re as int,
                                    i,
                                    fft_len as int / 4,
                                ) as i16,
                                im: equalizer::equalized(
                                    s[i].im as int,
                                    i,
                                    fft_len as int / 4,
                                ) as i16,
                            }
                        },
                )
            } else {
                cycle_spectrum(raw@, window@, sin@, fft_len as int)
            };
            &&& final(peaks_out)@ == select(
                bins,
                scratch_of(bins),
                amplitude_threshold.value.raw,
                None,
                MAX_PEAKS as nat,
            )
            &&& final(peaks_out)@.len() <= MAX_PEAKS
            &&& final(staged).wf()
            &&& final(staged).pulses@.len() == final(peaks_out)@.len()
        }),
{
    // Step 1: condition the raw buffer into signed samples.
    let mut values: Vec<i16> = Vec::new();
    adc::process_raw_samples(raw, &mut values);

    // Step 2: apply the window with range scaling.
    window::apply_with_scaling(&mut values, window);

    // Step 3: zero-pad to the transform length.
    let mut i: usize = values.len();
    while i < fft_len
        invariant
            values@.len() == i,
            raw@.len() / 2 <= i <= fft_len,
            forall|k: int|
                0 <= k < raw@.len() / 2 ==> (#[trigger] values@[k]) as int
                    == window::windowed_sample(
                    adc::processed_sample(raw@[2 * k], raw@[2 * k + 1]),
                    window@[k],
                ),
            forall|k: int| raw@.len() / 2 <= k < i ==> (#[trigger] values@[k]) == 0i16,
            raw@.len() / 2 <= fft_len,
            window@.len() == raw@.len() / 2,
        decreases fft_len - i,
    {
        let ghost prev = values@;
        values.push(0);
        proof {
            assert(forall|k: int| 0 <= k < prev.len() ==> (#[trigger] values@[k]) == prev[k]);
        }
        i = i + 1;
    }

    // Step 4: pair into complex bins and run the transform.
    let mut buf = fft::complex_from_adjacent_values(&values);
    proof {
        let padded = Seq::new(
            fft_len as nat,
            |k: int|
                if k < raw@.len() / 2 {
                    window::windowed_sample(
                        adc::processed_sample(raw@[2 * k], raw@[2 * k + 1]),
                        window@[k],
                    )
                } else {
                    0
                },
        );
        let paired = Seq::new(
            (fft_len as int / 2) as nat,
            |k: int| Complex { re: padded[2 * k] as i16, im: padded[2 * k + 1] as i16 },
        );
        assert forall|k: int| 0 <= k < buf@.len() implies (#[trigger] buf@[k]) == paired[k] by {
            assert(values@[2 * k] as int == padded[2 * k]);
            assert(values@[2 * k + 1] as int == padded[2 * k + 1]);
        }
        assert(buf@ =~= paired);
    }
    let mut bins = fft::run(&mut buf, sin);

    // Step 5: optionally run the equalizer.
    proof {
        assert(bins@ =~= cycle_spectrum(raw@, window@, sin@, fft_len as int));
    }
    let ghost spectrum = bins@;
    if equalize {
        equalizer::apply_to(&mut bins);
        proof {
            assert(bins@ =~= Seq::new(
                (fft_len / 4) as nat,
                |i: int|
                    {
                        let s = cycle_spectrum(raw@, window@, sin@, fft_len as int);
                        Complex {
                            re: equalizer::equalized(s[i].re as int, i, fft_len as int / 4) as i16,
                            im: equalizer::equalized(s[i].im as int, i, fft_len as int / 4) as i16,
                        }
                    },
            ));
        }
    }

    // Step 6: find peaks and stage the next pulse table.
    find_peaks(&bins, scratch, amplitude_threshold, peaks_out);
    proof {
        crate::analysis::lemma_select_props(
            bins@,
            scratch_of(bins@),
            amplitude_threshold.value.raw,
            None,
            MAX_PEAKS as nat,
        );
    }
    schedule_pulses(peaks_out, staged);
}

} // verus!
