//! Pulse scheduling.
//!
//! Each detected peak becomes a periodic pulse train: a period derived
//! from its frequency and a "next fire" timestamp.  A staged table of
//! unadjusted pulses (offsets relative to a future start) is built by
//! each processing cycle and later anchored to a wall-clock instant.
//! Selecting the next pulse to fire uses wraparound-safe comparison
//! throughout, and a rolling holdoff keeps firings from bunching
//! closer together than a minimum spacing: any candidate below the
//! holdoff is advanced by its own period before being considered.

use vstd::prelude::*;

use crate::analysis::{Peak, MAX_PEAKS};
use crate::math::{scale_by_u32, spec_scale};
use crate::time::{lemma_wrap_add_changes, lemma_wrap_add_sub, wrap_add, wrap_sub, Duration, Instant, HALF_RANGE, TICK_HZ};

verus! {

/// A fired pulse may never follow the previous one closer than this
/// many ticks (the minimum scheduling offset, 50 microseconds).
pub const MIN_HOLDOFF_TICKS: u32 = 2400;

/// Raw scaling factor of the frequency-adaptive holdoff: after a pulse
/// fires, this fraction of its own period must pass before any pulse
/// may fire again.
pub const HOLDOFF_RATIO_RAW: u16 = 16384;

/// A pulse: a repeat period, and the next firing point.  The firing
/// point is a wall-clock instant in a live table and a relative delay
/// in a staged one.
#[derive(Copy, Clone, PartialEq, Eq, Structural, Debug)]
pub struct Pulse<Next> {
    pub period: Duration,
    pub next: Next,
}

/// Holds pulses which contain their phase offset and period, but need
/// to be adjusted by adding a start timestamp.
pub struct UnadjustedPulses {
    pub pulses: Vec<Pulse<Duration>>,
}

/// Holds pulses which are scheduled against the wall-clock counter,
/// and the instant until which firing is held off.
pub struct Pulses {
    pub pulses: Vec<Pulse<Instant>>,
    pub holdoff_until: Instant,
}

/// Every period is nonzero (a pulse always advances) and at most one
/// second of ticks (so advancing can never overflow a future offset).
pub open spec fn periods_wf<Next>(pulses: Seq<Pulse<Next>>) -> bool {
    forall|i: int| 0 <= i < pulses.len() ==> 1 <= (#[trigger] pulses[i]).period.ticks <= TICK_HZ
}

impl UnadjustedPulses {
    pub open spec fn wf(&self) -> bool {
        &&& self.pulses@.len() <= MAX_PEAKS
        &&& periods_wf(self.pulses@)
    }

    pub fn new() -> (r: UnadjustedPulses)
        ensures
            r.wf(),
            r.pulses@.len() == 0,
    {
        UnadjustedPulses { pulses: Vec::new() }
    }
}

/// Build the staged pulse table from this cycle's peaks: one pulse per
/// peak, period from the frequency, initial delay from the phase.
pub fn schedule_pulses(peaks: &Vec<Peak>, pulses_out: &mut UnadjustedPulses)
    requires
        peaks@.len() <= MAX_PEAKS,
        forall|i: int| 0 <= i < peaks@.len() ==> (#[trigger] peaks@[i]).wf(),
    ensures
        final(pulses_out).wf(),
        final(pulses_out).pulses@.len() == peaks@.len(),
        forall|i: int|
            0 <= i < peaks@.len() ==> {
                let period = TICK_HZ as int / peaks@[i].freq as int;
                &&& (#[trigger] final(pulses_out).pulses@[i]).period.ticks == period
                &&& final(pulses_out).pulses@[i].next.ticks == spec_scale(period, peaks@[i].phase.raw)
            },
{
    pulses_out.pulses.clear();
    let mut i: usize = 0;
    while i < peaks.len()
        invariant
            i <= peaks@.len() <= MAX_PEAKS,
            forall|k: int| 0 <= k < peaks@.len() ==> (#[trigger] peaks@[k]).wf(),
            pulses_out.pulses@.len() == i,
            periods_wf(pulses_out.pulses@),
            forall|k: int|
                0 <= k < i ==> {
                    let period = TICK_HZ as int / peaks@[k].freq as int;
                    &&& (#[trigger] pulses_out.pulses@[k]).period.ticks == period
                    &&& pulses_out.pulses@[k].next.ticks == spec_scale(period, peaks@[k].phase.raw)
                },
        decreases peaks@.len() - i,
    {
        let peak = &peaks[i];
        let period = peak.period();
        let phase_offset = peak.phase_offset();
        pulses_out.pulses.push(Pulse { period, next: phase_offset });
        i = i + 1;
    }
}

/// How far an instant lies after `after`, and whether that still
/// counts as the future: differences of half the range or more mean
/// the point has already passed and yield zero.
pub open spec fn future_offset(ticks: u32, after: u32) -> u32 {
    let d = wrap_sub(ticks, after);
    if d < HALF_RANGE {
        d
    } else {
        0u32
    }
}

/// The holdoff that applies when selecting at `after`: the remaining
/// part of the rolling holdoff, floored at the minimum spacing.
pub open spec fn eff_holdoff(holdoff_until: u32, after: u32) -> u32 {
    let rem = future_offset(holdoff_until, after);
    if rem >= MIN_HOLDOFF_TICKS {
        rem
    } else {
        MIN_HOLDOFF_TICKS
    }
}

/// How many whole periods a pulse at `offset` after the query point
/// must be advanced to clear the holdoff.
pub open spec fn adv_count(offset: int, period: int, holdoff: int) -> nat
    decreases (if holdoff - offset > 0 { holdoff - offset } else { 0 })
        when period >= 1
{
    if offset >= holdoff {
        0
    } else {
        1 + adv_count(offset + period, period, holdoff)
    }
}

/// The offset a pulse ends up at once advanced clear of the holdoff.
pub open spec fn adv_offset(offset: int, period: int, holdoff: int) -> int {
    offset + adv_count(offset, period, holdoff) * period
}

/// A firing point advanced by `k` whole periods on the wrapping counter.
pub open spec fn adv_next(next: u32, period: u32, k: nat) -> u32
    decreases k,
{
    if k == 0 {
        next
    } else {
        wrap_add(adv_next(next, period, (k - 1) as nat), period)
    }
}

/// A pulse after rescheduling past the holdoff: its firing point moves
/// by whole periods until its offset from `after` clears `holdoff`.
pub open spec fn adv_pulse(p: Pulse<Instant>, after: u32, holdoff: u32) -> Pulse<Instant> {
    let off = wrap_sub(p.next.ticks, after);
    let k = adv_count(off as int, p.period.ticks as int, holdoff as int);
    Pulse {
        period: p.period,
        next: Instant { ticks: adv_next(p.next.ticks, p.period.ticks, k) },
    }
}

/// The index of the soonest pulse after `after` (first index wins ties),
/// scanning from `i` with `best` the best index so far.
pub open spec fn argmin_from(s: Seq<Pulse<Instant>>, after: u32, best: int, i: int) -> int
    decreases s.len() - i,
{
    if i < 0 || i >= s.len() {
        best
    } else {
        let b = if wrap_sub(s[i].next.ticks, after) < wrap_sub(s[best].next.ticks, after) {
            i
        } else {
            best
        };
        argmin_from(s, after, b, i + 1)
    }
}

/// The index of the soonest pulse after `after`; the earliest index
/// wins ties.
pub open spec fn argmin(s: Seq<Pulse<Instant>>, after: u32) -> int {
    argmin_from(s, after, 0, 1)
}

impl Pulses {
    pub open spec fn wf(&self) -> bool {
        &&& self.pulses@.len() <= MAX_PEAKS
        &&& periods_wf(self.pulses@)
    }

    pub fn new(at: Instant) -> (r: Pulses)
        ensures
            r.wf(),
            r.pulses@.len() == 0,
            r.holdoff_until == at,
    {
        Pulses { pulses: Vec::new(), holdoff_until: at }
    }

    /// Anchor a staged table to a start instant, replacing the live
    /// table: each staged delay becomes an absolute firing point.
    pub fn replace_with_adjusted(&mut self, unadjusted: &UnadjustedPulses, at: Instant)
        requires
            unadjusted.wf(),
        ensures
            final(self).wf(),
            final(self).holdoff_until == old(self).holdoff_until,
            final(self).pulses@.len() == unadjusted.pulses@.len(),
            forall|i: int|
                0 <= i < unadjusted.pulses@.len() ==> {
                    &&& (#[trigger] final(self).pulses@[i]).period == unadjusted.pulses@[i].period
                    &&& final(self).pulses@[i].next.ticks == wrap_add(
                        at.ticks,
                        unadjusted.pulses@[i].next.ticks,
                    )
                },
    {
        self.pulses.clear();
        let mut i: usize = 0;
        while i < unadjusted.pulses.len()
            invariant
                unadjusted.wf(),
                i <= unadjusted.pulses@.len(),
                self.pulses@.len() == i,
                self.holdoff_until == old(self).holdoff_until,
                periods_wf(self.pulses@),
                forall|k: int|
                    0 <= k < i ==> {
                        &&& (#[trigger] self.pulses@[k]).period == unadjusted.pulses@[k].period
                        &&& self.pulses@[k].next.ticks == wrap_add(
                            at.ticks,
                            unadjusted.pulses@[k].next.ticks,
                        )
                    },
            decreases unadjusted.pulses@.len() - i,
        {
            let p = unadjusted.pulses[i];
            self.pulses.push(Pulse { period: p.period, next: at.plus(p.next) });
            i = i + 1;
        }
    }

    /// Consume the pulses scheduled for a specific instant, advancing
    /// each matching pulse by exactly one of its own periods.  An error
    /// means no pulse matched: a benign scheduling race the caller logs
    /// and ignores.
    pub fn try_consume_pulse(&mut self, at: Instant) -> (r: Result<(), ()>)
        requires
            old(self).wf(),
        ensures
            final(self).wf(),
            final(self).holdoff_until == old(self).holdoff_until,
            final(self).pulses@.len() == old(self).pulses@.len(),
            forall|i: int|
                0 <= i < old(self).pulses@.len() ==> (#[trigger] final(self).pulses@[i]) == (
                if old(self).pulses@[i].next == at {
                    Pulse {
                        period: old(self).pulses@[i].period,
                        next: Instant {
                            ticks: wrap_add(
                                old(self).pulses@[i].next.ticks,
                                old(self).pulses@[i].period.ticks,
                            ),
                        },
                    }
                } else {
                    old(self).pulses@[i]
                }),
            r is Ok <==> exists|i: int|
                0 <= i < old(self).pulses@.len() && (#[trigger] old(self).pulses@[i]).next == at,
    {
        let ghost orig = self.pulses@;
        let mut found_any_matching = false;
        let mut i: usize = 0;
        while i < self.pulses.len()
            invariant
                self.wf(),
                self.holdoff_until == old(self).holdoff_until,
                orig == old(self).pulses@,
                self.pulses@.len() == orig.len(),
                i <= orig.len(),
                forall|k: int|
                    0 <= k < orig.len() ==> (#[trigger] self.pulses@[k]) == (
                    if k < i && orig[k].next == at {
                        Pulse {
                            period: orig[k].period,
                            next: Instant {
                                ticks: wrap_add(orig[k].next.ticks, orig[k].period.ticks),
                            },
                        }
                    } else {
                        orig[k]
                    }),
                found_any_matching <==> exists|k: int|
                    0 <= k < i && (#[trigger] orig[k]).next == at,
            decreases orig.len() - i,
        {
            if self.pulses[i].next == at {
                found_any_matching = true;
                let p = self.pulses[i];
                self.pulses.set(i, Pulse { period: p.period, next: p.next.plus(p.period) });
            }
            i = i + 1;
        }
        if found_any_matching {
            Ok(())
        } else {
            Err(())
        }
    }

    /// Get the firing point of the next pulse, if any are scheduled.
    ///
    /// Every pulse whose offset after `after` is still inside the
    /// holdoff is advanced by whole periods until it clears it; the
    /// soonest firing point then wins (the earliest table entry on a
    /// tie), and the rolling holdoff moves to the chosen point plus the
    /// holdoff fraction of that pulse's own period.
    pub fn next_pulse(&mut self, after: Instant) -> (r: Option<Instant>)
        requires
            old(self).wf(),
        ensures
            final(self).wf(),
            old(self).pulses@.len() == 0 ==> r is None && final(self).pulses@ == old(
                self,
            ).pulses@ && final(self).holdoff_until == old(self).holdoff_until,
            old(self).pulses@.len() > 0 ==> {
                let h = eff_holdoff(old(self).holdoff_until.ticks, after.ticks);
                let adv = Seq::new(
                    old(self).pulses@.len(),
                    |i: int| adv_pulse(old(self).pulses@[i], after.ticks, h),
                );
                let chosen = adv[argmin(adv, after.ticks)];
                &&& final(self).pulses@ == adv
                &&& r == Some(chosen.next)
                &&& final(self).holdoff_until.ticks == wrap_add(
                    chosen.next.ticks,
                    spec_scale(chosen.period.ticks as int, HOLDOFF_RATIO_RAW) as u32,
                )
                &&& wrap_sub(chosen.next.ticks, after.ticks) >= h
                &&& h >= MIN_HOLDOFF_TICKS
                &&& forall|i: int|
                    0 <= i < adv.len() ==> wrap_sub(chosen.next.ticks, after.ticks) <= wrap_sub(
                        (#[trigger] adv[i]).next.ticks,
                        after.ticks,
                    )
                &&& forall|i: int|
                    0 <= i < adv.len() ==> wrap_sub((#[trigger] adv[i]).next.ticks, after.ticks)
                        >= h
            },
    {
        if self.pulses.len() == 0 {
            return None;
        }

        // Remaining holdoff at the query point, floored at the minimum
        // spacing; a holdoff that has already passed counts as zero.
        let raw: u32 = self.holdoff_until.offset_from(after).ticks();
        let fut: u32 = if raw < HALF_RANGE {
            raw
        } else {
            0
        };
        let h: u32 = if fut >= MIN_HOLDOFF_TICKS {
            fut
        } else {
            MIN_HOLDOFF_TICKS
        };
        proof {
            assert(h == eff_holdoff(old(self).holdoff_until.ticks, after.ticks));
        }

        let ghost adv = Seq::new(
            old(self).pulses@.len(),
            |i: int| adv_pulse(old(self).pulses@[i], after.ticks, h),
        );

        // Phase 1: advance every pulse clear of the holdoff.
        let len: usize = self.pulses.len();
        let mut i: usize = 0;
        while i < len
            invariant
                self.wf(),
                h == eff_holdoff(old(self).holdoff_until.ticks, after.ticks),
                h < HALF_RANGE,
                h >= MIN_HOLDOFF_TICKS,
                adv == Seq::new(
                    old(self).pulses@.len(),
                    |k: int| adv_pulse(old(self).pulses@[k], after.ticks, h),
                ),
                self.holdoff_until == old(self).holdoff_until,
                len == old(self).pulses@.len(),
                self.pulses@.len() == len,
                i <= len,
                forall|k: int| 0 <= k < i ==> (#[trigger] self.pulses@[k]) == adv[k],
                forall|k: int|
                    i <= k < len ==> (#[trigger] self.pulses@[k]) == old(self).pulses@[k],
                forall|k: int|
                    0 <= k < i ==> wrap_sub((#[trigger] self.pulses@[k]).next.ticks, after.ticks)
                        >= h,
            decreases len - i,
        {
            let p = self.pulses[i];
            let ghost per = p.period.ticks;
            let ghost off0 = wrap_sub(p.next.ticks, after.ticks);
            let ghost k_total = adv_count(off0 as int, per as int, h as int);
            let mut next = p.next;
            let mut off: u32 = p.next.offset_from(after).ticks();
            let ghost mut g: nat = 0;
            while off < h
                invariant
                    1 <= per <= TICK_HZ,
                    h < HALF_RANGE,
                    p.period.ticks == per,
                    off == wrap_sub(next.ticks, after.ticks),
                    next.ticks == adv_next(p.next.ticks, per, g),
                    k_total == g + adv_count(off as int, per as int, h as int),
                decreases (if h > off { h - off } else { 0int }),
            {
                next = next.plus(p.period);
                proof {
                    g = g + 1nat;
                }
                off = off + p.period.ticks();
            }
            proof {
                assert(adv_count(off as int, per as int, h as int) == 0);
                assert(g == k_total);
                assert(Pulse { period: p.period, next } == adv_pulse(
                    old(self).pulses@[i as int],
                    after.ticks,
                    h,
                ));
            }
            self.pulses.set(i, Pulse { period: p.period, next });
            i = i + 1;
        }

        // Phase 2: pick the soonest firing point; the earliest table
        // entry wins ties.
        let mut best_i: usize = 0;
        let mut best_off: u32 = self.pulses[0].next.offset_from(after).ticks();
        let mut j: usize = 1;
        while j < len
            invariant
                self.pulses@ == adv,
                adv.len() == len,
                0 < len,
                best_i < j <= len,
                best_off == wrap_sub(adv[best_i as int].next.ticks, after.ticks),
                argmin(adv, after.ticks) == argmin_from(adv, after.ticks, best_i as int, j as int),
                forall|k: int|
                    0 <= k < j ==> best_off <= wrap_sub(
                        (#[trigger] adv[k]).next.ticks,
                        after.ticks,
                    ),
            decreases len - j,
        {
            let off = self.pulses[j].next.offset_from(after).ticks();
            if off < best_off {
                best_i = j;
                best_off = off;
            }
            j = j + 1;
        }

        let chosen = self.pulses[best_i];
        let hold_delta: u32 = scale_by_u32(chosen.period.ticks(), HOLDOFF_RATIO_RAW);
        self.holdoff_until = chosen.next.plus(Duration::from_ticks(hold_delta));
        Some(chosen.next)
    }
}

/// Law: advancing every matching pulse by its own nonzero period moves
/// it off the consumed instant, so consuming the same instant twice in
/// a row cannot find a match the second time.  The two sequences are a
/// pulse table before and after one consume of `at`.
pub proof fn lemma_consume_idempotent(
    before: Seq<Pulse<Instant>>,
    after_seq: Seq<Pulse<Instant>>,
    at: Instant,
)
    requires
        periods_wf(before),
        after_seq.len() == before.len(),
        forall|i: int|
            0 <= i < before.len() ==> (#[trigger] after_seq[i]) == (if before[i].next == at {
                Pulse {
                    period: before[i].period,
                    next: Instant {
                        ticks: wrap_add(before[i].next.ticks, before[i].period.ticks),
                    },
                }
            } else {
                before[i]
            }),
    ensures
        forall|i: int| 0 <= i < after_seq.len() ==> (#[trigger] after_seq[i]).next != at,
{
    assert forall|i: int| 0 <= i < after_seq.len() implies (#[trigger] after_seq[i]).next
        != at by {
        if before[i].next == at {
            lemma_wrap_add_changes(before[i].next.ticks, before[i].period.ticks);
        }
    }
}

/// Law: firing points chosen by successive selections keep their
/// spacing.  If a selection returned `t1` and stored the holdoff
/// fraction `d` of the chosen pulse's period, then any firing point
/// `t2` a later selection queried at `t1` returns lies at least `d`
/// and at least the minimum spacing after `t1`.  (Queried at `t1`, as
/// the firing task does: a query made long after the stored holdoff
/// treats it as expired, by design, and only the minimum spacing
/// remains enforced.)
pub proof fn lemma_holdoff_spacing(t1: u32, d: u32, t2: u32)
    requires
        d < HALF_RANGE,
        wrap_sub(t2, t1) >= eff_holdoff(wrap_add(t1, d), t1),
    ensures
        wrap_sub(t2, t1) >= MIN_HOLDOFF_TICKS,
        wrap_sub(t2, t1) >= d,
{
    lemma_wrap_add_sub(t1, d);
}

/// Law: a freshly anchored pulse fires within one period of its
/// anchor, give or take the minimum spacing.  When only the minimum
/// holdoff applies and the pulse's own period clears it, a pulse whose
/// phase-derived offset is at most one period ends, after rescheduling,
/// at most one period plus the minimum spacing out.
pub proof fn lemma_first_fire_within_period(off: int, per: int)
    requires
        MIN_HOLDOFF_TICKS <= per,
        0 <= off <= per,
    ensures
        adv_offset(off, per, MIN_HOLDOFF_TICKS as int) <= per + MIN_HOLDOFF_TICKS,
{
    let h = MIN_HOLDOFF_TICKS as int;
    if off >= h {
        assert(adv_count(off, per, h) == 0);
        assert(adv_offset(off, per, h) == off + 0 * per);
        assert(0 * per == 0) by (nonlinear_arith);
    } else {
        assert(off + per >= h);
        assert(adv_count(off + per, per, h) == 0);
        assert(adv_count(off, per, h) == 1);
        assert(adv_offset(off, per, h) == off + 1 * per);
        assert(1 * per == per) by (nonlinear_arith);
    }
}

} // verus!