//! Scenario tests for the library's stated behavior: bounded output,
//! exact sample counts, the first-sample-zero invariant, layer
//! normalization, delay stability, reverb boundedness, low-pass
//! smoothing, normalization exactness and the end-to-end pipeline.

use jinglemaker::audio::{Oscillator, LayeredOscillator, ADSR, WaveForm};
use jinglemaker::effects::{DelayBuffer, Reverb, LowPassFilter, LowPass, normalize_samples,
    peak_normalize};
use jinglemaker::export::JingleGenerator;
use jinglemaker::fixed::FX_ONE;
use jinglemaker::stream::{Source, collect_samples};
use jinglemaker::SAMPLE_RATE;

const TENTH: i64 = 100_000;
const HEADROOM: i64 = 300_000;

#[test]
fn bounded_output_for_all_waveforms() {
    for waveform in [WaveForm::Sine, WaveForm::Triangle, WaveForm::Sawtooth, WaveForm::Square] {
        let mut osc = Oscillator::new(523_000_000, waveform, TENTH);
        let samples = collect_samples(&mut osc);
        assert_eq!(samples.len(), 4410);
        for s in samples {
            assert!(s.abs() <= FX_ONE);
            assert!(s.abs() <= HEADROOM);
        }
    }
}

#[test]
fn exact_sample_count_for_any_frequency_and_waveform() {
    for (frequency, waveform) in [
        (1_000_000i64, WaveForm::Sine),
        (440_000_000, WaveForm::Square),
        (7_902_000_000, WaveForm::Sawtooth),
        (261_625_540, WaveForm::Triangle),
    ] {
        let mut osc = Oscillator::new(frequency, waveform, TENTH);
        let samples = collect_samples(&mut osc);
        assert_eq!(samples.len(), 4410);
    }
}

#[test]
fn first_sample_zero_with_positive_attack() {
    for waveform in [WaveForm::Sine, WaveForm::Triangle, WaveForm::Sawtooth, WaveForm::Square] {
        let mut osc = Oscillator::new(440_000_000, waveform, TENTH);
        assert_eq!(osc.next_sample(), Some(0));
        let adsr = ADSR { attack: 1, decay: 0, sustain: FX_ONE, release: 0 };
        let mut custom = Oscillator::new(440_000_000, waveform, TENTH).with_adsr(adsr);
        assert_eq!(custom.next_sample(), Some(0));
    }
}

#[test]
fn layer_normalization_bound() {
    // Many layers of arbitrary positive amplitudes never exceed the
    // single-layer envelope-scaled peak.
    let mut osc = LayeredOscillator::new(440_000_000, WaveForm::Sawtooth, TENTH)
        .add_harmonic(2_000_000, WaveForm::Square, 900_000)
        .add_harmonic(3_000_000, WaveForm::Triangle, 750_000)
        .add_harmonic(4_000_000, WaveForm::Sine, 200_000)
        .add_detune(25_000_000, WaveForm::Square, 1_000_000)
        .add_detune(-25_000_000, WaveForm::Sawtooth, 1_000_000);
    let samples = collect_samples(&mut osc);
    assert_eq!(samples.len(), 4410);
    for s in samples {
        assert!(s.abs() <= HEADROOM);
    }
}

#[test]
fn delay_line_stability_at_max_feedback() {
    // Pumping a constant input through a delay line with feedback 0.95
    // converges: outputs stay below input / (1 - feedback).
    let input: i64 = 100_000;
    let stability_bound = input * FX_ONE / (FX_ONE - 950_000) + 1;
    let mut delay = DelayBuffer::new(0, 950_000, 500_000);
    let mut last: i64 = 0;
    for _ in 0..2_000 {
        last = delay.process_sample(input);
        assert!(last.abs() <= stability_bound);
    }
    // The steady state is genuinely reached (within one percent).
    assert!(last.abs() >= stability_bound / 2 - stability_bound / 50);
}

#[test]
fn delay_line_echoes_after_its_delay() {
    // A two-sample delay at full wet mix returns the first input exactly
    // two calls later: the read is the history entry written
    // delay_samples calls earlier.
    let mut delay = DelayBuffer::new(45_352, 0, FX_ONE);
    assert_eq!(delay.process_sample(FX_ONE), 0);
    assert_eq!(delay.process_sample(0), 0);
    assert_eq!(delay.process_sample(0), FX_ONE);
    assert_eq!(delay.process_sample(0), 0);
}

#[test]
fn reverb_bounded_within_unit() {
    // A full oscillator tone through the eight-tap reverb never leaves
    // the unit amplitude, for a large room, full damping and full mix:
    // the taps' wet shares are summed onto the dry sample once and the
    // total is scaled by 0.7.
    let source = Oscillator::new(440_000_000, WaveForm::Square, TENTH);
    let mut reverb = Reverb::new(source, 2_000_000, 1_000_000, 1_000_000);
    let samples = collect_samples(&mut reverb);
    assert_eq!(samples.len(), 4410);
    for s in samples {
        assert!(s.abs() <= FX_ONE);
    }
}

#[test]
fn reverb_impulse_response_within_unit() {
    // An impulse-like burst: a two-sample stream at the headroom peak
    // with a flat envelope.  Every reverb output stays within seven
    // tenths of the unit.
    let source = Oscillator::new(1_000_000, WaveForm::Square, 23)
        .with_adsr(ADSR { attack: 0, decay: 0, sustain: FX_ONE, release: 0 });
    let mut reverb = Reverb::new(source, 1_000_000, 1_000_000, 1_000_000);
    let samples = collect_samples(&mut reverb);
    assert_eq!(samples.len(), 2);
    for s in samples {
        assert!(s.abs() <= 700_000);
    }
}

#[test]
fn lowpass_step_response_monotone() {
    // A step input produces a monotonically non-decreasing output
    // sequence converging toward one, never overshooting.
    let mut filter = LowPassFilter::new(1_000_000_000, SAMPLE_RATE);
    let mut previous: i64 = 0;
    let mut last: i64 = 0;
    for _ in 0..500 {
        last = filter.process_sample(FX_ONE);
        assert!(last >= previous);
        assert!(last <= FX_ONE);
        previous = last;
    }
    assert!(last > 900_000);
}

#[test]
fn normalization_exactness_and_idempotence() {
    let mut samples = vec![123_456, -654_321, 13, 0, 999_999];
    normalize_samples(&mut samples, 750_000);
    let peak = samples.iter().map(|&x| x.abs()).max().unwrap();
    assert!((peak - 750_000).abs() <= 1_000);

    // A second pass at the same target changes nothing once the peak
    // matches the target exactly.
    let first_pass = samples.clone();
    let second_pass = peak_normalize(first_pass.clone(), 750_000);
    let second_peak = second_pass.iter().map(|&x| x.abs()).max().unwrap();
    assert!((second_peak - 750_000).abs() <= 1_000);
    if peak == 750_000 {
        assert_eq!(second_pass, first_pass);
    }
}

#[test]
fn normalization_leaves_silence_untouched() {
    let mut silent = vec![0i64, 50, -99, 100];
    let before = silent.clone();
    normalize_samples(&mut silent, 900_000);
    assert_eq!(silent, before);
}

#[test]
fn end_to_end_scenario() {
    // A sine oscillator's first sample is exactly zero.
    let mut osc = Oscillator::new(440_000_000, WaveForm::Sine, TENTH);
    assert_eq!(osc.next_sample(), Some(0));

    // The envelope halfway through the attack is strictly between zero
    // and one.
    let adsr = ADSR::default();
    let probe = Oscillator::new(440_000_000, WaveForm::Sine, TENTH);
    let mid_attack = probe.get_amplitude_envelope(adsr.attack / 2);
    assert!(mid_attack > 0 && mid_attack < FX_ONE);

    // A square wave through the smooth low-pass still starts at zero and
    // never exceeds the headroom: the filter cannot amplify.
    let square = Oscillator::new(440_000_000, WaveForm::Square, TENTH);
    let mut chain = LowPass::smooth(square);
    let first = chain.next();
    assert_eq!(first, Some(0));
    loop {
        match chain.next() {
            Some(s) => assert!(s.abs() <= HEADROOM),
            None => break,
        }
    }
}

#[test]
fn melody_samples_are_concatenated_tones() {
    let generator = JingleGenerator::with_seed(1);
    let tone_c = generator.generate_tone(
        jinglemaker::music::Note::C.frequency(4),
        TENTH,
        WaveForm::Sine,
    );
    let melody = jinglemaker::music::Melody::from_scale(
        jinglemaker::music::Scale::Major,
        jinglemaker::music::Note::C,
        4,
        jinglemaker::music::MelodyPattern::Ascending,
        TENTH,
    );
    let samples = generator.generate_melody_samples(&melody, 4, WaveForm::Sine);
    // Seven scale degrees, each a tenth of a second.
    assert_eq!(samples.len(), 7 * 4410);
    // The first segment is exactly the root's tone.
    assert_eq!(&samples[..4410], &tone_c[..]);
}
