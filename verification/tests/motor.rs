//! Clamping of motor commands, checked on concrete bit patterns.

use solarville::motor::clamp_motor_speed;

#[test]
fn clamp_keeps_in_range_values() {
    let half: u32 = (0.5f32).to_bits();
    assert_eq!(clamp_motor_speed(half), half);
    let one: u32 = (1.0f32).to_bits();
    assert_eq!(clamp_motor_speed(one), one);
    let neg_one: u32 = (-1.0f32).to_bits();
    assert_eq!(clamp_motor_speed(neg_one), neg_one);
    let zero: u32 = (0.0f32).to_bits();
    assert_eq!(clamp_motor_speed(zero), zero);
    let neg_zero: u32 = (-0.0f32).to_bits();
    assert_eq!(clamp_motor_speed(neg_zero), neg_zero);
    let tiny: u32 = (f32::MIN_POSITIVE / 2.0).to_bits();
    assert_eq!(clamp_motor_speed(tiny), tiny);
}

#[test]
fn clamp_saturates_out_of_range_values() {
    let one: u32 = (1.0f32).to_bits();
    let neg_one: u32 = (-1.0f32).to_bits();
    assert_eq!(clamp_motor_speed((2.5f32).to_bits()), one);
    assert_eq!(clamp_motor_speed((-3.0f32).to_bits()), neg_one);
    assert_eq!(clamp_motor_speed((1.0000001f32).to_bits()), one);
    assert_eq!(clamp_motor_speed(f32::INFINITY.to_bits()), one);
    assert_eq!(clamp_motor_speed(f32::NEG_INFINITY.to_bits()), neg_one);
    assert_eq!(clamp_motor_speed(f32::MAX.to_bits()), one);
}

#[test]
fn clamp_matches_max_then_min_of_std() {
    // The clamp is specified as a maximum with -1.0 followed by a minimum
    // with 1.0; spot-check agreement with the floating-point computation.
    let samples: [f32; 9] =
        [-5.0, -1.0, -0.25, -0.0, 0.0, 0.75, 1.0, 3.5, f32::NAN];
    for s in samples {
        let expected: f32 = s.max(-1.0).min(1.0);
        assert_eq!(clamp_motor_speed(s.to_bits()), expected.to_bits());
    }
}

#[test]
fn clamp_sends_nan_to_negative_one() {
    let neg_one: u32 = (-1.0f32).to_bits();
    assert_eq!(clamp_motor_speed(f32::NAN.to_bits()), neg_one);
    // A NaN with the sign bit set is still a NaN and clamps the same way.
    let negative_nan: u32 = f32::NAN.to_bits() | 0x8000_0000;
    assert_eq!(clamp_motor_speed(negative_nan), neg_one);
}
