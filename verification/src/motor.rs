//! Clamping of motor commands to the actuator-safe range [-1.0, 1.0].
//!
//! Motor commands arrive as IEEE 754 single-precision values.  The core never
//! does arithmetic on them — it only guarantees that every stored command is
//! in range — so it carries them as their bit patterns (`u32`) and performs
//! the clamp directly on the bits.  For non-NaN patterns the magnitude bits
//! order exactly as the magnitudes do, which makes the comparison against 1.0
//! a pure integer test.

use vstd::prelude::*;

verus! {

/// Bit pattern of the single-precision value 1.0.
pub const UNIT_POS_BITS: u32 = 0x3f80_0000;

/// Bit pattern of the single-precision value -1.0.
pub const UNIT_NEG_BITS: u32 = 0xbf80_0000;

/// Bit pattern of the single-precision value 0.0.
pub const ZERO_BITS: u32 = 0;

/// A single-precision bit pattern encodes a NaN exactly when the exponent
/// bits are all ones and the mantissa is nonzero.
pub open spec fn f32_bits_is_nan(bits: u32) -> bool {
    bits & 0x7f80_0000 == 0x7f80_0000 && bits & 0x007f_ffff != 0
}

/// The encoded value lies strictly below -1.0: the sign bit is set and the
/// magnitude bits exceed those of 1.0.
pub open spec fn f32_bits_below_neg_unit(bits: u32) -> bool {
    &&& !f32_bits_is_nan(bits)
    &&& bits & 0x8000_0000 != 0
    &&& bits & 0x7fff_ffff > UNIT_POS_BITS
}

/// The encoded value lies strictly above 1.0: the sign bit is clear and the
/// magnitude bits exceed those of 1.0.
pub open spec fn f32_bits_above_pos_unit(bits: u32) -> bool {
    &&& !f32_bits_is_nan(bits)
    &&& bits & 0x8000_0000 == 0
    &&& bits & 0x7fff_ffff > UNIT_POS_BITS
}

/// The clamp of one motor command to [-1.0, 1.0], on bit patterns.
///
/// Values below -1.0 go to -1.0, values above 1.0 go to 1.0, and every
/// in-range value keeps its exact bit pattern.  A NaN command becomes -1.0:
/// the clamp is a maximum with -1.0 followed by a minimum with 1.0, and each
/// of the two steps ignores a NaN argument, so the maximum already turns a
/// NaN into -1.0.
pub open spec fn clamp_motor_spec(bits: u32) -> u32 {
    if f32_bits_is_nan(bits) {
        UNIT_NEG_BITS
    } else if f32_bits_below_neg_unit(bits) {
        UNIT_NEG_BITS
    } else if f32_bits_above_pos_unit(bits) {
        UNIT_POS_BITS
    } else {
        bits
    }
}

/// The bit pattern is already actuator-safe: clamping leaves it unchanged.
pub open spec fn motor_clamped(bits: u32) -> bool {
    clamp_motor_spec(bits) == bits
}

/// Clamps one motor command, given and returned as a single-precision bit
/// pattern.
pub fn clamp_motor_speed(bits: u32) -> (r: u32)
    ensures
        r == clamp_motor_spec(bits),
{
    let exponent: u32 = bits & 0x7f80_0000;
    let mantissa: u32 = bits & 0x007f_ffff;
    let magnitude: u32 = bits & 0x7fff_ffff;
    if exponent == 0x7f80_0000 && mantissa != 0 {
        UNIT_NEG_BITS
    } else if bits & 0x8000_0000 != 0 && magnitude > UNIT_POS_BITS {
        UNIT_NEG_BITS
    } else if bits & 0x8000_0000 == 0 && magnitude > UNIT_POS_BITS {
        UNIT_POS_BITS
    } else {
        bits
    }
}

/// A zeroed motor command is already clamped.
pub proof fn lemma_zero_motor_clamped()
    ensures
        motor_clamped(ZERO_BITS),
{
    assert(0u32 & 0x7f80_0000 != 0x7f80_0000) by (bit_vector);
    assert(0u32 & 0x7fff_ffff <= 0x3f80_0000) by (bit_vector);
}

/// Clamping is idempotent: a clamped command passes through unchanged.
pub proof fn lemma_clamp_motor_idempotent(bits: u32)
    ensures
        motor_clamped(clamp_motor_spec(bits)),
{
    assert(0xbf80_0000u32 & 0x7f80_0000 != 0x7f80_0000) by (bit_vector);
    assert(0xbf80_0000u32 & 0x7fff_ffff == 0x3f80_0000) by (bit_vector);
    assert(0x3f80_0000u32 & 0x7f80_0000 != 0x7f80_0000) by (bit_vector);
    assert(0x3f80_0000u32 & 0x7fff_ffff == 0x3f80_0000) by (bit_vector);
    assert(0x3f80_0000u32 & 0x8000_0000 == 0) by (bit_vector);
}

} // verus!
