//! Tests for the streaming effects and normalization.

use jinglemaker::audio::{Oscillator, WaveForm};
use jinglemaker::effects::{
    DelayBuffer, Echo, Reverb, LowPassFilter, LowPass, AutomaticGainControl, AGC,
    normalize_samples, peak_normalize,
};
use jinglemaker::fixed::FX_ONE;
use jinglemaker::stream::Source;
use jinglemaker::SAMPLE_RATE;

const TENTH: i64 = 100_000;

#[test]
fn test_delay_buffer() {
    // 10 ms delay.
    let mut delay = DelayBuffer::new(10_000_000, 500_000, 300_000);
    let output1 = delay.process_sample(FX_ONE);
    let output2 = delay.process_sample(0);

    // First sample should be mostly dry.
    assert!(output1 > 500_000);
    // Later samples should have some delay.
    assert!(output2.abs() < FX_ONE);
}

#[test]
fn test_echo_effect() {
    let osc = Oscillator::new(440_000_000, WaveForm::Sine, TENTH);
    let mut echo = Echo::new(osc, 50_000_000, 300_000, 200_000);

    let first_sample = echo.next();
    assert!(first_sample.is_some());
    assert!(first_sample.unwrap().abs() <= FX_ONE);
}

#[test]
fn test_reverb_effect() {
    let osc = Oscillator::new(440_000_000, WaveForm::Sine, TENTH);
    let mut reverb = Reverb::small_room(osc);

    let first_sample = reverb.next();
    assert!(first_sample.is_some());
    assert!(first_sample.unwrap().abs() <= FX_ONE);
}

#[test]
fn test_lowpass_filter() {
    let mut filter = LowPassFilter::new(1_000_000_000, SAMPLE_RATE);
    let output1 = filter.process_sample(FX_ONE);
    let output2 = filter.process_sample(0);

    // Filter should smooth the signal.
    assert!(output1 > 0 && output1 < FX_ONE);
    assert!(output2 > 0);
}

#[test]
fn test_lowpass_effect() {
    // Square wave has harmonics.
    let osc = Oscillator::new(440_000_000, WaveForm::Square, TENTH);
    let mut lowpass = LowPass::smooth(osc);

    let first_sample = lowpass.next();
    assert!(first_sample.is_some());
    assert!(first_sample.unwrap().abs() <= FX_ONE);
}

#[test]
fn test_agc() {
    let mut agc = AutomaticGainControl::new(500_000, 10_000, 100_000, SAMPLE_RATE);

    let output1 = agc.process_sample(FX_ONE);
    let output2 = agc.process_sample(100_000);

    // AGC output stays within the clamped gain times the input.
    assert!(output1.abs() <= 10 * FX_ONE);
    assert!(output2.abs() <= 10 * FX_ONE);
}

#[test]
fn test_agc_effect() {
    let osc = Oscillator::new(440_000_000, WaveForm::Sine, TENTH);
    let mut agc = AGC::gentle(osc);

    let first_sample = agc.next();
    assert!(first_sample.is_some());
    assert!(first_sample.unwrap().abs() <= FX_ONE);
}

#[test]
fn test_normalize_samples() {
    let mut samples = vec![100_000, -500_000, 300_000, -800_000];
    normalize_samples(&mut samples, 900_000);

    // Peak should now be 0.9.
    let peak = samples.iter().map(|&x| x.abs()).max().unwrap();
    assert!((peak - 900_000).abs() < 1_000);
}

#[test]
fn test_peak_normalize() {
    let samples = vec![200_000, -1_000_000, 500_000, -300_000];
    let normalized = peak_normalize(samples, 800_000);

    // Peak should now be 0.8.
    let peak = normalized.iter().map(|&x| x.abs()).max().unwrap();
    assert!((peak - 800_000).abs() < 1_000);
}
