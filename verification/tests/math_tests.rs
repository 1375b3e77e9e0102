use annoyance::complex::Complex;
use annoyance::math::{
    amplitude_sqrt, amplitude_squared, div_round, phase, scale_by, scale_by_u16, scale_by_u32,
    ScalingFactor, FACTOR_ONE,
};

#[test]
fn scale_by_is_high_half_of_product() {
    // 1000 * 32768 / 65536 == 500 exactly.
    assert_eq!(scale_by(1000, 32768), 500);
    // Scaling by one (65535/65536) keeps all but a rounding step.
    assert_eq!(scale_by(10000, FACTOR_ONE), 9999);
    assert_eq!(scale_by(0, FACTOR_ONE), 0);
    assert_eq!(scale_by(10000, 0), 0);
}

#[test]
fn scale_by_floors_toward_minus_infinity() {
    // -1 * 65535 / 65536 floors to -1, as the arithmetic shift does.
    assert_eq!(scale_by(-1, FACTOR_ONE), -1);
    assert_eq!(scale_by(-1000, 32768), -500);
    assert_eq!(scale_by(-32768, FACTOR_ONE), -32768);
}

#[test]
fn unsigned_scaling_matches() {
    assert_eq!(scale_by_u16(40000, 32768), 20000);
    assert_eq!(scale_by_u32(1_000_000, 16384), 250_000);
    assert_eq!(scale_by_u32(u32::MAX, 0), 0);
}

#[test]
fn from_ratio_scales_the_full_range() {
    assert_eq!(ScalingFactor::from_ratio(1, 2).raw, 32767);
    assert_eq!(ScalingFactor::from_ratio(0, 8).raw, 0);
    assert_eq!(ScalingFactor::from_ratio(8, 8).raw, FACTOR_ONE);
}

#[test]
fn from_sample_widens_adc_range() {
    assert_eq!(ScalingFactor::from_sample(0).raw, 0);
    assert_eq!(ScalingFactor::from_sample(4095).raw, 65520);
}

#[test]
fn distribute_fills_early_buckets_first() {
    // Five eighths distributed over four buckets: full, full, half, none.
    let overall = ScalingFactor::from_ratio(5, 8);
    let buckets = overall.distribute(4);
    assert_eq!(buckets.len(), 4);
    assert_eq!(buckets[0].raw, FACTOR_ONE);
    assert_eq!(buckets[1].raw, FACTOR_ONE);
    // 40959 - 2 * 16383 == 8193, rescaled by four.
    assert_eq!(buckets[2].raw, 32772);
    assert_eq!(buckets[3].raw, 0);
}

#[test]
fn distribute_of_zero_and_one() {
    let zero = ScalingFactor::from_raw(0).distribute(4);
    assert!(zero.iter().all(|b| b.raw == 0));
    let one = ScalingFactor::from_raw(FACTOR_ONE).distribute(4);
    assert!(one.iter().all(|b| b.raw == FACTOR_ONE));
}

#[test]
fn amplitude_squared_sums_squares() {
    assert_eq!(amplitude_squared(Complex::new(3, 4)), 25);
    assert_eq!(amplitude_squared(Complex::new(-3, 4)), 25);
    assert_eq!(amplitude_squared(Complex::new(-32768, -32768)), 2 * 32768 * 32768);
    assert_eq!(amplitude_squared(Complex::zero()), 0);
}

#[test]
fn amplitude_sqrt_is_floor_of_root() {
    assert_eq!(amplitude_sqrt(0), 0);
    assert_eq!(amplitude_sqrt(1), 1);
    assert_eq!(amplitude_sqrt(24), 4);
    assert_eq!(amplitude_sqrt(25), 5);
    assert_eq!(amplitude_sqrt(26), 5);
    assert_eq!(amplitude_sqrt(u32::MAX), 65535);
    assert_eq!(amplitude_sqrt(2 * 2000 * 2000), 2828);
}

#[test]
fn div_round_rounds_halves_up() {
    assert_eq!(div_round(20000, 8932), 2);
    assert_eq!(div_round(999, 1000), 1);
    assert_eq!(div_round(499, 1000), 0);
    assert_eq!(div_round(500, 1000), 1);
}

#[test]
fn phase_of_positive_real_axis_is_zero() {
    assert_eq!(phase(Complex::new(2000, 0)), 0);
}

#[test]
fn phase_grows_around_the_turn() {
    // The four axis directions map near 0, 1/4, 1/2 and 3/4 of a turn.
    let east = phase(Complex::new(2000, 0));
    let north = phase(Complex::new(0, 2000));
    let west = phase(Complex::new(-2000, 0));
    let south = phase(Complex::new(0, -2000));
    assert_eq!(east, 0);
    assert!((16000..=16800).contains(&north), "north {}", north);
    assert!((32400..=33200).contains(&west), "west {}", west);
    assert!((48800..=49600).contains(&south), "south {}", south);
}

#[test]
fn phase_handles_off_axis_bins() {
    // A diagonal bin sits an eighth of a turn up.
    let diag = phase(Complex::new(1000, 1000));
    assert!((7900..=8500).contains(&diag), "diag {}", diag);
    // The down-left diagonal sits five eighths around.
    let down_left = phase(Complex::new(-1000, -1000));
    assert!((40600..=41300).contains(&down_left), "down_left {}", down_left);
}

#[test]
fn phase_handles_extreme_component_ratios() {
    // These ratios drive the arctangent's internal quotient and
    // rotation registers to their largest values; the result must still
    // come back, near a quarter turn up or three quarters down.
    let steep_up = phase(Complex::new(1, 20000));
    assert!((16000..=16800).contains(&steep_up), "steep_up {}", steep_up);
    let steep_down = phase(Complex::new(-1, -32768));
    assert!((48800..=49600).contains(&steep_down), "steep_down {}", steep_down);
    let full_scale = phase(Complex::new(-32768, 32767));
    assert!((24000..=25200).contains(&full_scale), "full_scale {}", full_scale);
}
