use annoyance::complex::Complex;
use annoyance::fft::{bit_reverse, complex_from_adjacent_values, pow2_exec, radix2, run};
use annoyance::math::amplitude_squared;

/// The quarter-shifted sine table for a complex buffer of length `n`:
/// three quarters of a full cycle at amplitude `i16::MAX`.
fn sine_table(n: usize) -> Vec<i16> {
    let mut table = Vec::new();
    for i in 0..(n * 3 / 4) {
        let x = f64::sin(2.0 * std::f64::consts::PI * i as f64 / n as f64);
        table.push((i16::MAX as f64 * x).round() as i16);
    }
    table
}

/// A buffer of packed real samples: a cosine of `cycles` periods with
/// the given amplitude, two adjacent samples per complex bin.
fn packed_tone(real_len: usize, cycles: usize, amplitude: f64) -> Vec<Complex> {
    let mut samples: Vec<i16> = Vec::new();
    for nidx in 0..real_len {
        let x = f64::cos(2.0 * std::f64::consts::PI * cycles as f64 * nidx as f64 / real_len as f64);
        samples.push((amplitude * x).round() as i16);
    }
    complex_from_adjacent_values(&samples)
}

#[test]
fn pow2_and_bit_reverse() {
    assert_eq!(pow2_exec(0), 1);
    assert_eq!(pow2_exec(10), 1024);
    assert_eq!(bit_reverse(0, 4), 0);
    assert_eq!(bit_reverse(1, 4), 8);
    assert_eq!(bit_reverse(6, 4), 6);
    assert_eq!(bit_reverse(11, 4), 13);
    // Reversal is an involution.
    for x in 0..16 {
        assert_eq!(bit_reverse(bit_reverse(x, 4), 4), x);
    }
}

#[test]
fn fft_of_silence_is_silence() {
    let n = 64;
    let sin = sine_table(n);
    let mut buf = vec![Complex::zero(); n];
    radix2(&mut buf, &sin);
    assert!(buf.iter().all(|c| c.re == 0 && c.im == 0));
}

#[test]
fn fft_is_deterministic() {
    let n = 64;
    let sin = sine_table(n);
    let tone = packed_tone(2 * n, 10, 12000.0);
    let mut a = tone.clone();
    let mut b = tone.clone();
    radix2(&mut a, &sin);
    radix2(&mut b, &sin);
    assert_eq!(a, b);
}

#[test]
fn dominant_bin_matches_tone_frequency() {
    let n = 128;
    let sin = sine_table(n);
    // A tone at a bin-aligned frequency: 10 cycles per packed buffer.
    let mut buf = packed_tone(2 * n, 10, 14000.0);
    let bins = run(&mut buf, &sin);
    assert_eq!(bins.len(), n / 2);
    let mut best = 1;
    for i in 1..bins.len() {
        if amplitude_squared(bins[i]) > amplitude_squared(bins[best]) {
            best = i;
        }
    }
    assert_eq!(best, 10);
}

#[test]
fn magnitude_grows_with_input_amplitude() {
    let n = 128;
    let sin = sine_table(n);
    let mut quiet = packed_tone(2 * n, 10, 3000.0);
    let mut loud = packed_tone(2 * n, 10, 12000.0);
    let qbins = run(&mut quiet, &sin);
    let lbins = run(&mut loud, &sin);
    assert!(amplitude_squared(lbins[10]) > amplitude_squared(qbins[10]));
}

#[test]
fn run_keeps_the_nonnegative_half() {
    let n = 64;
    let sin = sine_table(n);
    let mut buf = packed_tone(2 * n, 5, 8000.0);
    let copy = buf.clone();
    let bins = run(&mut buf, &sin);
    assert_eq!(bins.len(), n / 2);
    // The returned bins are the first half of the transformed buffer.
    let mut again = copy;
    radix2(&mut again, &sin);
    assert_eq!(&again[..n / 2], &bins[..]);
}
