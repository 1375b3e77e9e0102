use annoyance::adc::process_raw_samples;
use annoyance::control::Sample;
use annoyance::time::{Duration, Instant};

#[test]
fn control_sample_picks_values_in_range() {
    // Zero control picks the range start, full control the end (less a
    // rounding step).
    assert_eq!(Sample::new(0).to_value_in_range(100, 4000), 100);
    assert_eq!(Sample::new(4095).to_value_in_range(100, 4000), 3999);
    // Half-scale control picks close to the middle.
    let mid = Sample::new(2048).to_value_in_range(0, 1000);
    assert!((495..=505).contains(&mid), "mid {}", mid);
}

#[test]
fn control_sample_picks_wide_values_in_range() {
    // Pulse widths are picked in timer ticks: one to ten microseconds
    // at forty-eight ticks each.
    assert_eq!(Sample::new(0).to_value_in_range_u32(48, 480), 48);
    assert_eq!(Sample::new(4095).to_value_in_range_u32(48, 480), 479);
    let mid = Sample::new(2048).to_value_in_range_u32(0, 1_000_000);
    assert!((499_000..=501_000).contains(&mid), "mid {}", mid);
}

#[test]
fn raw_samples_average_and_center() {
    // Pairs are averaged (halves up) and shifted to signed around zero.
    let raw = vec![2047, 2047, 4095, 4095, 0, 0, 2047, 2048];
    let mut out: Vec<i16> = Vec::new();
    process_raw_samples(&raw, &mut out);
    assert_eq!(out, vec![0, 2048, -2047, 1]);
}

#[test]
fn instants_wrap_cleanly() {
    let near_end = Instant::from_ticks(0xFFFF_FFF0);
    let stepped = near_end.plus(Duration::from_ticks(0x20));
    assert_eq!(stepped.ticks(), 0x10);
    // Measuring back across the wrap recovers the distance.
    assert_eq!(stepped.offset_from(near_end).ticks(), 0x20);
    // A point just behind reads as almost a full counter away.
    assert_eq!(near_end.offset_from(stepped).ticks(), u32::MAX - 0x20 + 1);
}
