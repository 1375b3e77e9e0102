use annoyance::analysis::{Peak, ScratchPeak, FREQ_RESOLUTION_X1000};
use annoyance::complex::Complex;
use annoyance::control::Sample;
use annoyance::equalizer::apply_to;
use annoyance::coordinator::{acquire_cycle, fire_cycle, process_buffer};
use annoyance::indicator::{amplitude, threshold};
use annoyance::math::{ScalingFactor, FACTOR_ONE};
use annoyance::pulse::{Pulses, UnadjustedPulses, MIN_HOLDOFF_TICKS};
use annoyance::time::{Instant, TICK_HZ};
use annoyance::window::{amplitude_scale_factor, apply_with_scaling};

/// The quarter-shifted sine table for a complex buffer of length `n`.
fn sine_table(n: usize) -> Vec<i16> {
    let mut table = Vec::new();
    for i in 0..(n * 3 / 4) {
        let x = f64::sin(2.0 * std::f64::consts::PI * i as f64 / n as f64);
        table.push((i16::MAX as f64 * x).round() as i16);
    }
    table
}

/// A raw oversampled ADC buffer holding one tone: `cycles` periods per
/// processed buffer, centered at half scale.
fn raw_tone(processed_len: usize, cycles: usize, amplitude: f64) -> Vec<u16> {
    let mut raw = Vec::new();
    for i in 0..processed_len {
        let x = f64::cos(2.0 * std::f64::consts::PI * cycles as f64 * i as f64 / processed_len as f64);
        let sample = (2047.0 + amplitude * x).round() as u16;
        raw.push(sample);
        raw.push(sample);
    }
    raw
}

#[test]
fn tone_becomes_one_dominant_peak_and_a_pulse() {
    // A single synthetic tone: 10 cycles per 128-sample buffer, read
    // through a 256-point transform with 64 usable bins.
    let fft_len = 256usize;
    let raw = raw_tone(128, 10, 1800.0);
    let window = vec![u16::MAX; 128];
    let sin = sine_table(fft_len / 2);
    let mut scratch: Vec<ScratchPeak> = Vec::new();
    let mut peaks: Vec<Peak> = Vec::new();
    let mut staged = UnadjustedPulses::new();
    process_buffer(
        &raw,
        &window,
        &sin,
        fft_len,
        false,
        Sample::new(0),
        &mut scratch,
        &mut peaks,
        &mut staged,
    );

    // The analyzer finds the tone, and its strongest peak sits within
    // one bin of the tone's frequency.  Padding the 128 samples to a
    // 256-point transform puts a 10-cycle tone at bin 20.
    assert!(peaks.len() >= 1);
    let expected = 20 * FREQ_RESOLUTION_X1000 / 1000;
    let got = peaks[0].freq as usize;
    let tolerance = FREQ_RESOLUTION_X1000 / 1000 + 1;
    assert!(
        got >= expected - tolerance && got <= expected + tolerance,
        "freq {} expected near {}",
        got,
        expected
    );

    // The scheduler stages one pulse per peak, with the period of the
    // detected frequency.
    assert_eq!(staged.pulses.len(), peaks.len());
    let period = TICK_HZ / peaks[0].freq as u32;
    assert_eq!(staged.pulses[0].period.ticks(), period);

    // Anchoring at a start instant yields a first firing point within
    // one period (plus the minimum holdoff) of the start.
    let start = Instant::from_ticks(5_000_000);
    let mut live = Pulses::new(start);
    let next = acquire_cycle(&mut live, &staged, start).unwrap();
    let offset = next.ticks().wrapping_sub(start.ticks());
    assert!(offset <= period + MIN_HOLDOFF_TICKS, "offset {} period {}", offset, period);
    assert!(offset >= MIN_HOLDOFF_TICKS);

    // Firing at the scheduled instant consumes it and rearms the next.
    let (consumed, rearmed) = fire_cycle(&mut live, next);
    assert_eq!(consumed, Ok(()));
    let t2 = rearmed.unwrap();
    let gap = t2.ticks().wrapping_sub(next.ticks());
    assert!(gap >= MIN_HOLDOFF_TICKS, "gap {}", gap);

    // Firing again at the same stale instant is the benign race.
    let (again, nothing) = fire_cycle(&mut live, next);
    assert_eq!(again, Err(()));
    assert_eq!(nothing, None);
}

#[test]
fn silent_buffer_stages_nothing() {
    let fft_len = 256usize;
    let raw = vec![2047u16; 256];
    let window = vec![u16::MAX; 128];
    let sin = sine_table(fft_len / 2);
    let mut scratch: Vec<ScratchPeak> = Vec::new();
    let mut peaks: Vec<Peak> = Vec::new();
    let mut staged = UnadjustedPulses::new();
    process_buffer(
        &raw,
        &window,
        &sin,
        fft_len,
        false,
        Sample::new(0),
        &mut scratch,
        &mut peaks,
        &mut staged,
    );
    assert_eq!(peaks.len(), 0);
    assert_eq!(staged.pulses.len(), 0);

    // With no staged pulses, acquisition arms nothing.
    let start = Instant::from_ticks(1000);
    let mut live = Pulses::new(start);
    assert_eq!(acquire_cycle(&mut live, &staged, start), None);
}

#[test]
fn window_application_scales_samples() {
    let mut data = vec![1000i16, -1000, 2047, -2047];
    let window = vec![u16::MAX, 32768, u16::MAX, 0];
    apply_with_scaling(&mut data, &window);
    // Samples are widened by sixteen, then scaled by the coefficient.
    assert_eq!(data[0], (1000 * 16 * 65535i64 / 65536) as i16);
    assert_eq!(data[1], -8000);
    assert_eq!(data[2], (2047 * 16 * 65535i64 / 65536) as i16);
    assert_eq!(data[3], 0);
}

#[test]
fn amplitude_scale_factor_is_the_mean_coefficient() {
    let window = vec![u16::MAX; 16];
    assert_eq!(amplitude_scale_factor(&window).raw, FACTOR_ONE);
    let half = vec![0u16, u16::MAX, 0, u16::MAX];
    assert_eq!(amplitude_scale_factor(&half).raw, (2 * u16::MAX as u32 / 4) as u16);
}

#[test]
fn indicator_banks_fill_with_level() {
    // A buffer swinging the full ADC range drives all four channels.
    let mut full = vec![0u16; 8];
    for i in 0..8 {
        full[i] = if i % 2 == 0 { 0 } else { 4095 };
    }
    let hot = amplitude(&full);
    assert_eq!(hot.len(), 4);
    assert!(hot.iter().all(|f| f.raw == FACTOR_ONE));

    // A buffer stuck at half scale barely grazes the first channel.
    let cold = amplitude(&vec![2047u16; 8]);
    assert_eq!(cold[0].raw, 128);
    assert_eq!(cold[1].raw, 0);
    assert_eq!(cold[2].raw, 0);
    assert_eq!(cold[3].raw, 0);

    // Four peaks of eight light half the threshold bank.
    let peaks = vec![
        Peak { freq: 100, amplitude: 500, phase: ScalingFactor::from_raw(0) };
        4
    ];
    let bank = threshold(&peaks);
    assert_eq!(bank[0].raw, FACTOR_ONE);
    assert_eq!(bank[1].raw, FACTOR_ONE);
    assert!(bank[2].raw <= 4);
    assert_eq!(bank[3].raw, 0);
}

#[test]
fn equalizer_leaves_low_bins_and_lifts_high_ones() {
    let mut bins = vec![Complex::zero(); 16];
    bins[0] = Complex::new(1000, -500);
    bins[15] = Complex::new(1000, 0);
    apply_to(&mut bins);
    // At zero frequency the response is full, so the bin is unchanged.
    assert_eq!(bins[0], Complex::new(1000, -500));
    // Near the top of the range the response has fallen to 382 of 3149,
    // so the bin is scaled up by that inverse.
    assert_eq!(bins[15].re as i32, 1000 * 3149 / 382);
    assert_eq!(bins[15].im, 0);
}

#[test]
fn equalizer_saturates_instead_of_overflowing() {
    let mut bins = vec![Complex::zero(); 16];
    bins[15] = Complex::new(30000, -30000);
    apply_to(&mut bins);
    assert_eq!(bins[15].re, i16::MAX);
    assert_eq!(bins[15].im, i16::MIN);
}

#[test]
fn equalized_pipeline_still_finds_the_tone() {
    let fft_len = 256usize;
    let raw = raw_tone(128, 10, 1800.0);
    let window = vec![u16::MAX; 128];
    let sin = sine_table(fft_len / 2);
    let mut scratch: Vec<ScratchPeak> = Vec::new();
    let mut peaks: Vec<Peak> = Vec::new();
    let mut staged = UnadjustedPulses::new();
    process_buffer(
        &raw,
        &window,
        &sin,
        fft_len,
        true,
        Sample::new(0),
        &mut scratch,
        &mut peaks,
        &mut staged,
    );
    assert!(peaks.len() >= 1);
    let expected = 20 * FREQ_RESOLUTION_X1000 / 1000;
    let got = peaks[0].freq as usize;
    let tolerance = FREQ_RESOLUTION_X1000 / 1000 + 1;
    assert!(
        got >= expected - tolerance && got <= expected + tolerance,
        "freq {} expected near {}",
        got,
        expected
    );
}
