//! Bounds of the audio settings. Values are `f32` numbers held as their IEEE-754
//! bit patterns; they are compared through `order_key`, under which two non-NaN
//! patterns compare as the numbers they encode do.

use vstd::prelude::*;

verus! {

/// `0.0_f32`.
pub const VOLUME_MIN: u32 = 0x0000_0000u32;

/// `1.0_f32`.
pub const VOLUME_MAX: u32 = 0x3F80_0000u32;

/// `0.1_f32`.
pub const PITCH_MIN: u32 = 0x3DCC_CCCDu32;

/// `4.0_f32`.
pub const PITCH_MAX: u32 = 0x4080_0000u32;

/// `-1.0_f32`.
pub const PANNING_MIN: u32 = 0xBF80_0000u32;

/// `1.0_f32`.
pub const PANNING_MAX: u32 = 0x3F80_0000u32;

/// The pattern without its sign bit.
pub open spec fn magnitude(bits: u32) -> int {
    (bits % 0x8000_0000u32) as int
}

/// Whether the sign bit is set.
pub open spec fn sign_set(bits: u32) -> bool {
    bits >= 0x8000_0000u32
}

/// Whether the pattern encodes NaN: all exponent bits set and a nonzero fraction.
pub open spec fn is_nan(bits: u32) -> bool {
    magnitude(bits) > 0x7F80_0000
}

/// The position of a non-NaN pattern on the number line: negative patterns
/// count down from zero by magnitude, so both zeros sit at 0.
pub open spec fn order_key(bits: u32) -> int {
    if sign_set(bits) {
        -magnitude(bits)
    } else {
        magnitude(bits)
    }
}

/// `f32::clamp(value, min, max)`: NaN stays; below `min` gives `min`; above `max`
/// gives `max`; anything else stays.
pub open spec fn clamped(value: u32, min: u32, max: u32) -> u32 {
    if is_nan(value) {
        value
    } else if order_key(value) < order_key(min) {
        min
    } else if order_key(value) > order_key(max) {
        max
    } else {
        value
    }
}

/// Whether `value` is a number between `min` and `max`, inclusive.
pub open spec fn within(value: u32, min: u32, max: u32) -> bool {
    !is_nan(value) && order_key(min) <= order_key(value) <= order_key(max)
}

fn key(bits: u32) -> (k: i64)
    ensures
        k == order_key(bits),
{
    let m = (bits % 0x8000_0000u32) as i64;
    if bits >= 0x8000_0000u32 {
        -m
    } else {
        m
    }
}

fn nan(bits: u32) -> (result: bool)
    ensures
        result == is_nan(bits),
{
    bits % 0x8000_0000u32 > 0x7F80_0000u32
}

/// `value` clamped to `[min, max]`, as `f32::clamp` does; `min` must not exceed `max`.
pub fn clamp_bits(value: u32, min: u32, max: u32) -> (result: u32)
    requires
        !is_nan(min),
        !is_nan(max),
        order_key(min) <= order_key(max),
    ensures
        result == clamped(value, min, max),
{
    if nan(value) {
        value
    } else if key(value) < key(min) {
        min
    } else if key(value) > key(max) {
        max
    } else {
        value
    }
}

/// A volume clamped to `[0.0, 1.0]`.
pub fn clamp_volume(volume: u32) -> (result: u32)
    ensures
        result == clamped(volume, VOLUME_MIN, VOLUME_MAX),
{
    clamp_bits(volume, VOLUME_MIN, VOLUME_MAX)
}

/// A pitch clamped to `[0.1, 4.0]`.
pub fn clamp_pitch(pitch: u32) -> (result: u32)
    ensures
        result == clamped(pitch, PITCH_MIN, PITCH_MAX),
{
    clamp_bits(pitch, PITCH_MIN, PITCH_MAX)
}

/// A panning clamped to `[-1.0, 1.0]`.
pub fn clamp_panning(panning: u32) -> (result: u32)
    ensures
        result == clamped(panning, PANNING_MIN, PANNING_MAX),
{
    clamp_bits(panning, PANNING_MIN, PANNING_MAX)
}

/// Whether a volume is a number in `[0.0, 1.0]`.
pub fn is_valid_volume(volume: u32) -> (valid: bool)
    ensures
        valid == within(volume, VOLUME_MIN, VOLUME_MAX),
{
    !nan(volume) && key(VOLUME_MIN) <= key(volume) && key(volume) <= key(VOLUME_MAX)
}

/// Whether a pitch is a number in `[0.1, 4.0]`.
pub fn is_valid_pitch(pitch: u32) -> (valid: bool)
    ensures
        valid == within(pitch, PITCH_MIN, PITCH_MAX),
{
    !nan(pitch) && key(PITCH_MIN) <= key(pitch) && key(pitch) <= key(PITCH_MAX)
}

/// Whether a panning is a number in `[-1.0, 1.0]`.
pub fn is_valid_panning(panning: u32) -> (valid: bool)
    ensures
        valid == within(panning, PANNING_MIN, PANNING_MAX),
{
    !nan(panning) && key(PANNING_MIN) <= key(panning) && key(panning) <= key(PANNING_MAX)
}

/// Clamping is idempotent and lands in the bounds: a clamped number is valid, and
/// clamping a valid value leaves it unchanged.
pub proof fn law_clamp_lands_within(value: u32, min: u32, max: u32)
    requires
        !is_nan(min),
        !is_nan(max),
        order_key(min) <= order_key(max),
    ensures
        !is_nan(value) ==> within(clamped(value, min, max), min, max),
        within(value, min, max) ==> clamped(value, min, max) == value,
        clamped(clamped(value, min, max), min, max) == clamped(value, min, max),
{
}

} // verus!
