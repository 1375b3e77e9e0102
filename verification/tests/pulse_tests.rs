use annoyance::analysis::Peak;
use annoyance::math::ScalingFactor;
use annoyance::pulse::{
    schedule_pulses, Pulse, Pulses, UnadjustedPulses, MIN_HOLDOFF_TICKS,
};
use annoyance::time::{Duration, Instant, TICK_HZ};

fn peak(freq: u16, phase_raw: u16) -> Peak {
    Peak { freq, amplitude: 1000, phase: ScalingFactor::from_raw(phase_raw) }
}

fn live_table(entries: &[(u32, u32)], holdoff_at: u32) -> Pulses {
    let mut pulses = Pulses::new(Instant::from_ticks(holdoff_at));
    for &(period, next) in entries {
        pulses.pulses.push(Pulse {
            period: Duration::from_ticks(period),
            next: Instant::from_ticks(next),
        });
    }
    pulses
}

#[test]
fn schedule_builds_one_pulse_per_peak() {
    let peaks = vec![peak(100, 0), peak(200, 32768)];
    let mut staged = UnadjustedPulses::new();
    schedule_pulses(&peaks, &mut staged);
    assert_eq!(staged.pulses.len(), 2);
    // Period is one second of ticks over the frequency.
    assert_eq!(staged.pulses[0].period.ticks(), TICK_HZ / 100);
    assert_eq!(staged.pulses[0].next.ticks(), 0);
    assert_eq!(staged.pulses[1].period.ticks(), TICK_HZ / 200);
    // Half a turn of phase delays the first pulse by half a period.
    assert_eq!(staged.pulses[1].next.ticks(), (TICK_HZ / 200) / 2);
}

#[test]
fn adjusting_anchors_to_the_start_instant() {
    let peaks = vec![peak(1000, 0)];
    let mut staged = UnadjustedPulses::new();
    schedule_pulses(&peaks, &mut staged);
    let mut live = Pulses::new(Instant::from_ticks(0));
    live.replace_with_adjusted(&staged, Instant::from_ticks(7_000_000));
    assert_eq!(live.pulses.len(), 1);
    assert_eq!(live.pulses[0].next.ticks(), 7_000_000);
    assert_eq!(live.pulses[0].period.ticks(), TICK_HZ / 1000);
}

#[test]
fn wraparound_pulse_counts_as_upcoming() {
    // The counter is about to wrap: a pulse just past zero must win
    // over one slightly in the past, not read as far away.
    let after = 0xFFFF_FFF0u32;
    let mut pulses = live_table(&[(5000, 0xFFFF_FF00), (5000, 0x10)], after);
    let next = pulses.next_pulse(Instant::from_ticks(after)).unwrap();
    // The candidate at 0x10 sits 0x20 ticks ahead, inside the minimum
    // holdoff, so it advances by exactly one of its own periods.
    assert_eq!(next.ticks(), 0x10 + 5000);
    // The stale pulse was left alone: its wrapping offset is huge, far
    // beyond the holdoff.
    assert_eq!(pulses.pulses[0].next.ticks(), 0xFFFF_FF00);
}

#[test]
fn next_pulse_picks_the_soonest() {
    let after = 1_000_000u32;
    let mut pulses = live_table(
        &[(48000, after + 90_000), (48000, after + 50_000), (48000, after + 70_000)],
        after,
    );
    let next = pulses.next_pulse(Instant::from_ticks(after)).unwrap();
    assert_eq!(next.ticks(), after + 50_000);
}

#[test]
fn empty_table_yields_no_pulse() {
    let mut pulses = Pulses::new(Instant::from_ticks(0));
    assert_eq!(pulses.next_pulse(Instant::from_ticks(12345)), None);
}

#[test]
fn holdoff_keeps_firings_apart() {
    // Two pulses whose naive firing points are only 100 ticks apart.
    let after = 500_000u32;
    let mut pulses = live_table(&[(48000, after + 2500), (48000, after + 2600)], after);
    let t1 = pulses.next_pulse(Instant::from_ticks(after)).unwrap();
    assert_eq!(t1.ticks(), after + 2500);
    // Fire at t1, then ask again from there: the second pulse may not
    // follow within the holdoff (a quarter of the chosen period, here
    // 12000 ticks), so it is pushed a whole period out.
    let t2 = pulses.next_pulse(t1).unwrap();
    let gap = t2.ticks().wrapping_sub(t1.ticks());
    assert!(gap >= MIN_HOLDOFF_TICKS, "gap {}", gap);
    assert!(gap >= 12000, "gap {}", gap);
}

#[test]
fn consume_advances_matching_pulses_once() {
    let at = 333_000u32;
    let mut pulses = live_table(&[(48000, at), (50000, at), (48000, at + 7)], 0);
    assert_eq!(pulses.try_consume_pulse(Instant::from_ticks(at)), Ok(()));
    // Both matching pulses moved by exactly one of their own periods;
    // the third is untouched.
    assert_eq!(pulses.pulses[0].next.ticks(), at + 48000);
    assert_eq!(pulses.pulses[1].next.ticks(), at + 50000);
    assert_eq!(pulses.pulses[2].next.ticks(), at + 7);
    // Consuming the same instant again finds nothing.
    assert_eq!(pulses.try_consume_pulse(Instant::from_ticks(at)), Err(()));
}

#[test]
fn consume_without_match_is_an_error() {
    let mut pulses = live_table(&[(48000, 1000)], 0);
    assert_eq!(pulses.try_consume_pulse(Instant::from_ticks(999)), Err(()));
    // The benign race leaves the table untouched.
    assert_eq!(pulses.pulses[0].next.ticks(), 1000);
}

#[test]
fn consume_wraps_around_the_counter() {
    let at = 0xFFFF_FFFFu32;
    let mut pulses = live_table(&[(100, at)], 0);
    assert_eq!(pulses.try_consume_pulse(Instant::from_ticks(at)), Ok(()));
    assert_eq!(pulses.pulses[0].next.ticks(), 99);
}
