//! Tests for the jingle generator: seeding, tone and melody rendering,
//! buffer combination and quantization.

use jinglemaker::export::JingleGenerator;
use jinglemaker::music::{Note, Scale, MelodyPattern, Melody};
use jinglemaker::audio::WaveForm;
use jinglemaker::error::JingleError;
use jinglemaker::SAMPLE_RATE;

#[test]
fn test_generator_creation() {
    let generator = JingleGenerator::new();
    assert_eq!(generator.sample_rate(), SAMPLE_RATE);
}

#[test]
fn test_tone_generation() {
    let generator = JingleGenerator::new();
    let samples = generator.generate_tone(440_000_000, 100_000, WaveForm::Sine);
    assert!(!samples.is_empty());
    assert_eq!(samples.len(), (SAMPLE_RATE / 10) as usize);
}

#[test]
fn test_melody_sample_generation() {
    let generator = JingleGenerator::new();
    let melody = Melody::from_scale(Scale::Major, Note::C, 4, MelodyPattern::Ascending, 100_000);
    let samples = generator.generate_melody_samples(&melody, 4, WaveForm::Sine);
    assert!(!samples.is_empty());
}

#[test]
fn test_sample_combination() {
    let generator = JingleGenerator::new();
    let samples1 = vec![100_000, 200_000, 300_000];
    let samples2 = vec![400_000, 500_000, 600_000];
    let combined = generator.combine_samples(&vec![samples1, samples2], 0);
    assert_eq!(combined.len(), 6);
    assert_eq!(combined[0], 100_000);
    assert_eq!(combined[3], 400_000);
}

#[test]
fn test_seeded_generation() {
    let mut gen1 = JingleGenerator::with_seed(12345);
    let mut gen2 = JingleGenerator::with_seed(12345);

    // Same seed should produce same results.
    assert_eq!(gen1.random_variation(), gen2.random_variation());
    assert_eq!(gen1.random_pitch_offset(), gen2.random_pitch_offset());
}

#[test]
fn test_string_seed() {
    let mut gen1 = JingleGenerator::with_string_seed("test");
    let mut gen2 = JingleGenerator::with_string_seed("test");

    // Same string seed should produce same results.
    assert_eq!(gen1.random_variation(), gen2.random_variation());
}

#[test]
fn test_seed_reset() {
    let mut generator = JingleGenerator::with_seed(12345);
    let first_value = generator.random_variation();
    generator.random_variation();

    // Reset should go back to the beginning.
    generator.reset_seed().unwrap();
    assert_eq!(generator.random_variation(), first_value);
}

#[test]
fn test_fork_generator() {
    let mut original = JingleGenerator::with_seed(12345);
    let first_value = original.random_variation();

    // Fork should create an independent copy with the same seed.
    let mut forked = original.fork().unwrap();
    assert_eq!(forked.random_variation(), first_value);
}

#[test]
fn test_derive_seed() {
    let original = JingleGenerator::with_seed(12345);
    let derived = original.derive_seed(100).unwrap();

    // Derived generator should have a different but consistent seed.
    assert_eq!(derived.get_current_seed(), Some(12345u64.wrapping_add(100)));
}

#[test]
fn test_no_seed_operations() {
    let mut generator = JingleGenerator::new();

    // Operations requiring a seed should fail gracefully.
    assert!(generator.fork().is_err());
    assert!(generator.derive_seed(100).is_err());
    assert!(matches!(generator.reset_seed(), Err(JingleError::RandomError)));
}

#[test]
fn test_combine_samples_with_gap() {
    let generator = JingleGenerator::new();
    let samples1 = vec![100_000];
    let samples2 = vec![200_000];
    // A 1 ms gap at 44100 Hz is 44 samples of silence.
    let combined = generator.combine_samples(&vec![samples1, samples2], 1_000);
    assert_eq!(combined.len(), 46);
    assert_eq!(combined[0], 100_000);
    assert_eq!(combined[1], 0);
    assert_eq!(combined[45], 200_000);
}

#[test]
fn test_quantize_samples() {
    let generator = JingleGenerator::new();
    let samples = vec![1_000_000, -1_000_000, 500_000, 0];
    let quantized = generator.quantize_samples(&samples);
    assert_eq!(quantized, vec![32767i16, -32767, 16383, 0]);
}

#[test]
fn test_random_bounds() {
    let mut generator = JingleGenerator::with_seed(7);
    for _ in 0..50 {
        let v = generator.random_variation();
        assert!((600_000..=1_400_000).contains(&v));
        let p = generator.random_pitch_offset();
        assert!((-4_000_000..=4_000_000).contains(&p));
        let r = generator.random_rhythm_variation();
        assert!((500_000..=2_000_000).contains(&r));
        let n = generator.random_note_count_variation(4);
        assert!((2..=10).contains(&n));
        let k = generator.random_range(3, 9);
        assert!((3..9).contains(&k));
    }
    assert!(generator.random_bool(1_000_000));
    assert!(!generator.random_bool(0));
}
