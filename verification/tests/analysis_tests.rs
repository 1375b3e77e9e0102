use annoyance::analysis::{
    find_peaks, refine_frequency, Peak, ScratchPeak, FREQ_RESOLUTION_X1000, MAX_FREQ,
    NOISE_FLOOR_AMPLITUDE,
};
use annoyance::complex::Complex;
use annoyance::control::Sample;
use annoyance::math::ScalingFactor;

fn silent_spectrum(len: usize) -> Vec<Complex> {
    vec![Complex::zero(); len]
}

fn run_find_peaks(bins: &Vec<Complex>, threshold: Sample) -> Vec<Peak> {
    let mut scratch: Vec<ScratchPeak> = Vec::new();
    let mut peaks: Vec<Peak> = Vec::new();
    find_peaks(bins, &mut scratch, threshold, &mut peaks);
    peaks
}

#[test]
fn single_loud_bin_yields_exactly_one_peak() {
    let mut bins = silent_spectrum(512);
    bins[37] = Complex::new(2000, 0);
    let peaks = run_find_peaks(&bins, Sample::new(0));
    assert_eq!(peaks.len(), 1);
    // Equal (zero) neighbours leave the frequency within one hertz of
    // the nominal bin frequency 37 * 8.932 Hz.
    assert_eq!(peaks[0].freq, 330);
    assert_eq!(peaks[0].amplitude, 2000);
    // A positive real bin has zero phase.
    assert_eq!(peaks[0].phase.raw, 0);
}

#[test]
fn all_below_floor_yields_no_peaks() {
    // Every bin carries amplitude five: well below the noise floor.
    let bins = vec![Complex::new(3, 4); 512];
    let peaks = run_find_peaks(&bins, Sample::new(0));
    assert_eq!(peaks.len(), 0);
}

#[test]
fn silence_yields_no_peaks() {
    let bins = silent_spectrum(512);
    let peaks = run_find_peaks(&bins, Sample::new(0));
    assert_eq!(peaks.len(), 0);
}

#[test]
fn low_frequency_peaks_are_culled() {
    // A loud bin at the minimum-frequency bin (bin 2) is rejected.
    let mut bins = silent_spectrum(512);
    bins[2] = Complex::new(5000, 0);
    let peaks = run_find_peaks(&bins, Sample::new(0));
    assert_eq!(peaks.len(), 0);
}

#[test]
fn sensitivity_threshold_culls_weaker_peaks() {
    let mut bins = silent_spectrum(512);
    bins[40] = Complex::new(10000, 0);
    bins[80] = Complex::new(150, 0);
    // With the control at zero the threshold sits at the noise floor
    // and both peaks pass.
    let permissive = run_find_peaks(&bins, Sample::new(0));
    assert_eq!(permissive.len(), 2);
    assert_eq!(permissive[0].amplitude, 10000);
    assert_eq!(permissive[1].amplitude, 150);
    // With the control at full scale the threshold sits at the highest
    // peak's amplitude and the weaker peak is dropped.
    let strict = run_find_peaks(&bins, Sample::new(4095));
    assert_eq!(strict.len(), 1);
    assert_eq!(strict[0].amplitude, 10000);
}

#[test]
fn highest_peaks_come_first() {
    let mut bins = silent_spectrum(512);
    bins[50] = Complex::new(3000, 0);
    bins[100] = Complex::new(6000, 0);
    bins[200] = Complex::new(4000, 0);
    let peaks = run_find_peaks(&bins, Sample::new(0));
    assert_eq!(peaks.len(), 3);
    assert_eq!(peaks[0].amplitude, 6000);
    assert_eq!(peaks[1].amplitude, 4000);
    assert_eq!(peaks[2].amplitude, 3000);
}

#[test]
fn refinement_shifts_toward_the_larger_neighbour() {
    let mut bins = silent_spectrum(512);
    bins[99] = Complex::new(1000, 0);
    bins[100] = Complex::new(4000, 0);
    bins[101] = Complex::new(3000, 0);
    let nominal = 100 * FREQ_RESOLUTION_X1000 / 1000;
    let refined = refine_frequency(&bins, 100, ScalingFactor::from_raw(0)).unwrap();
    // The right neighbour is larger, so the peak shifts up, by at most
    // half a bin.
    assert!(refined as usize > nominal, "refined {} nominal {}", refined, nominal);
    assert!(
        (refined as usize) * 1000 <= 100 * FREQ_RESOLUTION_X1000 + FREQ_RESOLUTION_X1000 / 2 + 500,
        "refined {}",
        refined
    );
}

#[test]
fn refinement_with_equal_neighbours_stays_put() {
    let mut bins = silent_spectrum(512);
    bins[99] = Complex::new(1000, 0);
    bins[100] = Complex::new(4000, 0);
    bins[101] = Complex::new(1000, 0);
    let refined = refine_frequency(&bins, 100, ScalingFactor::from_raw(0)).unwrap();
    // 100 * 8.932 Hz, with a negligible downward adjustment.
    assert_eq!(refined, 893);
}

#[test]
fn refinement_rejects_overlarge_frequencies() {
    let mut bins = silent_spectrum(600);
    bins[599] = Complex::new(4000, 0);
    bins[598] = Complex::new(1000, 0);
    // 599 * 8.932 Hz is over the configured maximum.
    assert!(599 * FREQ_RESOLUTION_X1000 / 1000 > MAX_FREQ as usize);
    assert_eq!(refine_frequency(&bins, 599, ScalingFactor::from_raw(0)), None);
}

#[test]
fn nightcore_multiplier_raises_the_frequency() {
    let mut bins = silent_spectrum(512);
    bins[100] = Complex::new(4000, 0);
    let plain = refine_frequency(&bins, 100, ScalingFactor::from_raw(0)).unwrap();
    // A multiplier of one quarter raises the result by a quarter.
    let shifted = refine_frequency(&bins, 100, ScalingFactor::from_raw(16384)).unwrap();
    assert_eq!(shifted, plain + plain / 4);
}

#[test]
fn noise_floor_is_a_hundred() {
    // An amplitude just below the floor is culled, one at it passes.
    let mut below = silent_spectrum(512);
    below[40] = Complex::new((NOISE_FLOOR_AMPLITUDE - 1) as i16, 0);
    assert_eq!(run_find_peaks(&below, Sample::new(0)).len(), 0);
    let mut at = silent_spectrum(512);
    at[40] = Complex::new(NOISE_FLOOR_AMPLITUDE as i16, 0);
    assert_eq!(run_find_peaks(&at, Sample::new(0)).len(), 1);
}

#[test]
fn scratch_peaks_api_round_trip() {
    let mut p = ScratchPeak::new(17);
    assert_eq!(p.i(), Some(17));
    p.consume();
    assert_eq!(p.i(), None);
}
