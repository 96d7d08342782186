//! Tests for the oscillators, waveforms and envelopes.

use jinglemaker::audio::{Oscillator, LayeredOscillator, ADSR, WaveForm};
use jinglemaker::fixed::FX_ONE;
use jinglemaker::stream::Source;

const SECOND: i64 = FX_ONE;
const TENTH: i64 = 100_000;

#[test]
fn test_oscillator_creation() {
    let osc = Oscillator::new(440_000_000, WaveForm::Sine, SECOND);
    assert_eq!(osc.frequency(), 440_000_000);
    assert_eq!(osc.total_duration(), SECOND);
}

#[test]
fn test_oscillator_sample_generation() {
    let mut osc = Oscillator::new(440_000_000, WaveForm::Sine, TENTH);
    let first_sample = osc.next_sample();
    assert!(first_sample.is_some());
    assert!(first_sample.unwrap().abs() <= FX_ONE);
}

#[test]
fn test_adsr_envelope() {
    let adsr = ADSR::default();
    let osc = Oscillator::new(440_000_000, WaveForm::Sine, SECOND);
    let envelope_start = osc.get_amplitude_envelope(0);
    let envelope_attack = osc.get_amplitude_envelope(adsr.attack / 2);
    assert_eq!(envelope_start, 0);
    assert!(envelope_attack > 0 && envelope_attack < FX_ONE);
}

#[test]
fn test_layered_oscillator_creation() {
    let osc = LayeredOscillator::new(440_000_000, WaveForm::Sine, SECOND);
    assert_eq!(osc.base_frequency(), 440_000_000);
    assert_eq!(osc.layers().len(), 1);
    assert_eq!(osc.total_duration(), SECOND);
}

#[test]
fn test_layered_oscillator_harmonic() {
    let osc = LayeredOscillator::new(440_000_000, WaveForm::Sine, SECOND)
        .add_harmonic(2_000_000, WaveForm::Sine, 500_000);
    assert_eq!(osc.layers().len(), 2);
    assert_eq!(osc.layers()[1].frequency_offset, 2_000_000);
    assert_eq!(osc.layers()[1].amplitude, 500_000);
}

#[test]
fn test_layered_oscillator_detune() {
    // 10 cents sharp.
    let osc = LayeredOscillator::new(440_000_000, WaveForm::Sine, SECOND)
        .add_detune(10_000_000, WaveForm::Sine, 300_000);
    assert_eq!(osc.layers().len(), 2);
    assert!(osc.layers()[1].frequency_offset > FX_ONE);
}

#[test]
fn test_layered_oscillator_sample_generation() {
    let mut osc = LayeredOscillator::new(440_000_000, WaveForm::Sine, TENTH)
        .add_harmonic(2_000_000, WaveForm::Triangle, 300_000);
    let first_sample = osc.next_sample();
    assert!(first_sample.is_some());
    assert!(first_sample.unwrap().abs() <= FX_ONE);
}
