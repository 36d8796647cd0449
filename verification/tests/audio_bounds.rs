use godot_bevy::audio;

fn clamp_volume(v: f32) -> f32 {
    f32::from_bits(audio::clamp_volume(v.to_bits()))
}

fn clamp_pitch(v: f32) -> f32 {
    f32::from_bits(audio::clamp_pitch(v.to_bits()))
}

fn clamp_panning(v: f32) -> f32 {
    f32::from_bits(audio::clamp_panning(v.to_bits()))
}

fn is_valid_volume(v: f32) -> bool {
    audio::is_valid_volume(v.to_bits())
}

fn is_valid_pitch(v: f32) -> bool {
    audio::is_valid_pitch(v.to_bits())
}

fn is_valid_panning(v: f32) -> bool {
    audio::is_valid_panning(v.to_bits())
}

#[test]
fn test_clamp_volume() {
    assert_eq!(clamp_volume(-0.5), 0.0);
    assert_eq!(clamp_volume(0.5), 0.5);
    assert_eq!(clamp_volume(1.5), 1.0);
    assert_eq!(clamp_volume(0.0), 0.0);
    assert_eq!(clamp_volume(1.0), 1.0);
}

#[test]
fn test_clamp_pitch() {
    assert_eq!(clamp_pitch(0.05), 0.1);
    assert_eq!(clamp_pitch(2.0), 2.0);
    assert_eq!(clamp_pitch(5.0), 4.0);
    assert_eq!(clamp_pitch(0.1), 0.1);
    assert_eq!(clamp_pitch(4.0), 4.0);
}

#[test]
fn test_clamp_panning() {
    assert_eq!(clamp_panning(-2.0), -1.0);
    assert_eq!(clamp_panning(0.0), 0.0);
    assert_eq!(clamp_panning(2.0), 1.0);
    assert_eq!(clamp_panning(-1.0), -1.0);
    assert_eq!(clamp_panning(1.0), 1.0);
}

#[test]
fn test_validation_functions() {
    assert!(is_valid_volume(0.5));
    assert!(!is_valid_volume(-0.1));
    assert!(!is_valid_volume(1.1));
    assert!(!is_valid_volume(f32::NAN));

    assert!(is_valid_pitch(2.0));
    assert!(!is_valid_pitch(0.05));
    assert!(!is_valid_pitch(5.0));

    assert!(is_valid_panning(0.0));
    assert!(!is_valid_panning(-1.5));
    assert!(!is_valid_panning(1.5));
}

#[test]
fn bound_constants_are_the_documented_numbers() {
    assert_eq!(f32::from_bits(audio::VOLUME_MIN), 0.0);
    assert_eq!(f32::from_bits(audio::VOLUME_MAX), 1.0);
    assert_eq!(f32::from_bits(audio::PITCH_MIN), 0.1);
    assert_eq!(f32::from_bits(audio::PITCH_MAX), 4.0);
    assert_eq!(f32::from_bits(audio::PANNING_MIN), -1.0);
    assert_eq!(f32::from_bits(audio::PANNING_MAX), 1.0);
}

#[test]
fn clamping_keeps_nan_and_negative_zero() {
    assert!(clamp_volume(f32::NAN).is_nan());
    assert_eq!(clamp_volume(-0.0).to_bits(), (-0.0f32).to_bits());
    assert_eq!(clamp_panning(f32::NEG_INFINITY), -1.0);
    assert_eq!(clamp_pitch(f32::INFINITY), 4.0);
    assert!(is_valid_volume(-0.0));
    assert!(!is_valid_pitch(f32::NAN));
}

#[test]
fn clamped_values_are_valid() {
    for v in [-3.0f32, -1.0, -0.25, 0.0, 0.3, 1.0, 2.5, 7.0] {
        assert!(is_valid_volume(clamp_volume(v)));
        assert!(is_valid_pitch(clamp_pitch(v)));
        assert!(is_valid_panning(clamp_panning(v)));
        assert_eq!(clamp_volume(clamp_volume(v)), clamp_volume(v));
    }
}
