//! Tests for the preset jingles.

use jinglemaker::export::JingleGenerator;
use jinglemaker::presets::JinglePreset;
use jinglemaker::audio::WaveForm;

#[test]
fn test_notification_jingle() {
    let mut generator = JingleGenerator::new();
    let samples = generator.create_notification_jingle(WaveForm::Sine, None, None);
    assert!(!samples.is_empty());
}

#[test]
fn test_all_presets() {
    let mut generator = JingleGenerator::new();

    for preset in JinglePreset::all() {
        let samples = preset.generate(&mut generator, WaveForm::Sine);
        assert!(!samples.is_empty(), "Preset {} should generate samples", preset.name());
    }
}

#[test]
fn test_preset_names() {
    assert_eq!(JinglePreset::Notification.name(), "notification");
    assert_eq!(JinglePreset::Success.name(), "success");
    assert_eq!(JinglePreset::Alert.name(), "alert");
}

#[test]
fn test_presets_within_headroom() {
    let mut generator = JingleGenerator::with_seed(99);
    for preset in JinglePreset::all() {
        let samples = preset.generate_with_params(
            &mut generator,
            WaveForm::Sawtooth,
            Some(300_000),
            Some(523_000_000),
        );
        assert!(!samples.is_empty());
        for s in samples {
            assert!(s.abs() <= 300_000, "preset {} exceeded headroom", preset.name());
        }
    }
}
