//! Audio synthesis: waveform functions, ADSR amplitude envelopes and the
//! oscillators that combine them into finite streams of fixed-point
//! samples.
//!
//! A waveform is a pure function of the normalized phase, the position
//! within one cycle scaled to `[0, FX_ONE)`.  The sine waveform is the
//! standard parabolic approximation: exact at the zero crossings and the
//! peaks, and bounded by the unit amplitude everywhere.

use vstd::prelude::*;
use crate::fixed::{div_tz, mag, fx_div, fx_mul_div, FX_ONE};
use crate::stream::Source;
use crate::SAMPLE_RATE;

verus! {

/// Half a cycle of normalized phase.
pub const FX_HALF: i64 = 500_000;

/// The peak of the parabolic sine: `FX_QUARTER * FX_QUARTER / SINE_DIV`
/// equals `FX_ONE`.
pub const SINE_DIV: i64 = 62_500;

/// Fixed attenuation applied to raw oscillator output to leave margin
/// before digital clipping: 0.3 in millionths.
pub const HEADROOM_FX: i64 = 300_000;

/// Largest frequency the oscillators accept: 20 kHz in millionths.
pub const FREQ_MAX_FX: i64 = 20_000_000_000;

/// Largest stream duration the oscillators accept: 600 s in millionths.
pub const DUR_MAX_FX: i64 = 600_000_000;

/// Most layers a layered oscillator will hold.
pub const MAX_LAYERS: usize = 64;

/// Available waveform types for oscillator synthesis.
#[derive(Clone, Copy, Debug, PartialEq, Eq, Structural)]
pub enum WaveForm {
    Sine,
    Triangle,
    Sawtooth,
    Square,
}

/// The parabolic sine of a normalized phase: a downward parabola through
/// the zero crossings peaking at `FX_ONE`, mirrored for the second half
/// cycle.
pub open spec fn spec_sine(p: int) -> int {
    if p <= FX_HALF {
        div_tz(p * (FX_HALF - p), SINE_DIV as int)
    } else {
        -div_tz((p - FX_HALF) * (FX_ONE - p), SINE_DIV as int)
    }
}

/// The triangle wave: linear from -1 up to 1 over the first half cycle,
/// back down over the second.
pub open spec fn spec_triangle(p: int) -> int {
    if p < FX_HALF {
        4 * p - FX_ONE
    } else {
        3 * FX_ONE - 4 * p
    }
}

/// The sawtooth wave: linear from -1 to 1 across the cycle.
pub open spec fn spec_sawtooth(p: int) -> int {
    2 * p - FX_ONE
}

/// The square wave: the sign of the sine, with the zero crossing mapped
/// to +1.
pub open spec fn spec_square(p: int) -> int {
    if p <= FX_HALF {
        FX_ONE as int
    } else {
        -(FX_ONE as int)
    }
}

/// The raw waveform value at a normalized phase.
pub open spec fn spec_wave(w: WaveForm, p: int) -> int {
    match w {
        WaveForm::Sine => spec_sine(p),
        WaveForm::Triangle => spec_triangle(p),
        WaveForm::Sawtooth => spec_sawtooth(p),
        WaveForm::Square => spec_square(p),
    }
}

/// Every waveform stays within the unit amplitude on a normalized phase.
pub proof fn lemma_wave_bounded(w: WaveForm, p: int)
    requires
        0 <= p < FX_ONE,
    ensures
        mag(spec_wave(w, p)) <= FX_ONE,
{
    match w {
        WaveForm::Sine => {
            if p <= FX_HALF {
                let x = p * (FX_HALF - p);
                assert(0 <= x <= 62_500_000_000int) by (nonlinear_arith)
                    requires
                        0 <= p <= 500_000,
                        x == p * (500_000 - p),
                ;
                crate::fixed::lemma_div_tz_mag(x, SINE_DIV as int);
                crate::fixed::lemma_div_le(x, 62_500_000_000int, SINE_DIV as int);
            } else {
                let x = (p - FX_HALF) * (FX_ONE - p);
                assert(0 <= x <= 62_500_000_000int) by (nonlinear_arith)
                    requires
                        500_000 < p < 1_000_000,
                        x == (p - 500_000) * (1_000_000 - p),
                ;
                crate::fixed::lemma_div_tz_mag(x, SINE_DIV as int);
                crate::fixed::lemma_div_le(x, 62_500_000_000int, SINE_DIV as int);
            }
        },
        WaveForm::Triangle => {},
        WaveForm::Sawtooth => {},
        WaveForm::Square => {},
    }
}

/// Compute the raw waveform value at a normalized phase.
pub fn wave_value(w: WaveForm, p: i64) -> (r: i64)
    requires
        0 <= p < FX_ONE,
    ensures
        r == spec_wave(w, p as int),
        mag(r as int) <= FX_ONE,
{
    proof {
        lemma_wave_bounded(w, p as int);
    }
    match w {
        WaveForm::Sine => {
            if p <= FX_HALF {
                proof {
                    assert(0 <= p * (FX_HALF - p) <= 62_500_000_000int) by (nonlinear_arith)
                        requires
                            0 <= p <= 500_000,
                    ;
                }
                fx_div(p * (FX_HALF - p), SINE_DIV)
            } else {
                proof {
                    assert(0 <= (p - FX_HALF) * (FX_ONE - p) <= 62_500_000_000int)
                        by (nonlinear_arith)
                        requires
                            500_000 < p < 1_000_000,
                    ;
                }
                -fx_div((p - FX_HALF) * (FX_ONE - p), SINE_DIV)
            }
        },
        WaveForm::Triangle => {
            if p < FX_HALF {
                4 * p - FX_ONE
            } else {
                3 * FX_ONE - 4 * p
            }
        },
        WaveForm::Sawtooth => 2 * p - FX_ONE,
        WaveForm::Square => {
            if p <= FX_HALF {
                FX_ONE
            } else {
                -FX_ONE
            }
        },
    }
}

/// ADSR envelope parameters for natural-sounding audio: attack, decay and
/// release times in fixed-point seconds, sustain as a fixed-point level.
#[derive(Clone, Copy, Debug)]
pub struct ADSR {
    pub attack: i64,
    pub decay: i64,
    pub sustain: i64,
    pub release: i64,
}

impl ADSR {
    /// Valid envelope parameters: nonnegative bounded times, a sustain
    /// level within `[0, 1]`.
    pub open spec fn wf(&self) -> bool {
        &&& 0 <= self.attack <= DUR_MAX_FX
        &&& 0 <= self.decay <= DUR_MAX_FX
        &&& 0 <= self.sustain <= FX_ONE
        &&& 0 <= self.release <= DUR_MAX_FX
    }
}

impl Default for ADSR {
    /// The stock envelope: 0.1 s attack, 0.1 s decay, 0.7 sustain,
    /// 0.2 s release.
    fn default() -> (r: ADSR)
        ensures
            r.attack == 100_000,
            r.decay == 100_000,
            r.sustain == 700_000,
            r.release == 200_000,
            r.wf(),
    {
        ADSR { attack: 100_000, decay: 100_000, sustain: 700_000, release: 200_000 }
    }
}

/// The envelope level at elapsed time `t` of a stream lasting `total`
/// (both in fixed-point seconds): a linear attack ramp from zero, a linear
/// decay towards the sustain level, the sustain plateau, and a linear
/// release back to zero.  A zero-length phase is skipped: its window is
/// empty, and a zero-length release yields silence at the very end.
pub open spec fn spec_envelope(adsr: ADSR, total: int, t: int) -> int {
    if t < adsr.attack {
        div_tz(t * (FX_ONE as int), adsr.attack as int)
    } else if t < adsr.attack + adsr.decay {
        FX_ONE - div_tz((t - adsr.attack) * (FX_ONE - adsr.sustain), adsr.decay as int)
    } else if t < total - adsr.release {
        adsr.sustain as int
    } else if adsr.release > 0 {
        div_tz(adsr.sustain * (total - t), adsr.release as int)
    } else {
        0
    }
}

/// While the stream lasts, the envelope stays within `[0, 1]`; at time
/// zero with a positive attack it is exactly zero.
pub proof fn lemma_envelope_bounded(adsr: ADSR, total: int, t: int)
    requires
        adsr.wf(),
        0 <= t < total,
    ensures
        0 <= spec_envelope(adsr, total, t) <= FX_ONE,
{
    if t < adsr.attack {
        let x = t * (FX_ONE as int);
        assert(0 <= x <= adsr.attack * (FX_ONE as int)) by (nonlinear_arith)
            requires
                0 <= t < adsr.attack,
                x == t * (FX_ONE as int),
        ;
        crate::fixed::lemma_div_tz_mag(x, adsr.attack as int);
        vstd::arithmetic::div_mod::lemma_multiply_divide_le(
            x,
            adsr.attack as int,
            FX_ONE as int,
        );
    } else if t < adsr.attack + adsr.decay {
        let x = (t - adsr.attack) * (FX_ONE - adsr.sustain);
        assert(0 <= x <= adsr.decay * (FX_ONE - adsr.sustain)) by (nonlinear_arith)
            requires
                adsr.attack <= t < adsr.attack + adsr.decay,
                0 <= adsr.sustain <= FX_ONE,
                x == (t - adsr.attack) * (FX_ONE - adsr.sustain),
        ;
        crate::fixed::lemma_div_tz_mag(x, adsr.decay as int);
        vstd::arithmetic::div_mod::lemma_multiply_divide_le(
            x,
            adsr.decay as int,
            FX_ONE - adsr.sustain,
        );
        crate::fixed::lemma_div_tz_bounds(x, adsr.decay as int);
    } else if t < total - adsr.release {
    } else if adsr.release > 0 {
        let x = adsr.sustain * (total - t);
        assert(0 <= x <= adsr.release * adsr.sustain) by (nonlinear_arith)
            requires
                0 < total - t <= adsr.release,
                0 <= adsr.sustain,
                x == adsr.sustain * (total - t),
        ;
        crate::fixed::lemma_div_tz_mag(x, adsr.release as int);
        vstd::arithmetic::div_mod::lemma_multiply_divide_le(
            x,
            adsr.release as int,
            adsr.sustain as int,
        );
    }
}

/// Compute the envelope level at time `t` (fixed-point seconds).
pub fn envelope_value(adsr: &ADSR, total: i64, t: i64) -> (r: i64)
    requires
        adsr.wf(),
        0 <= total <= DUR_MAX_FX,
        0 <= t <= DUR_MAX_FX,
    ensures
        r == spec_envelope(*adsr, total as int, t as int),
        t < total ==> 0 <= r <= FX_ONE,
{
    proof {
        if t < total {
            lemma_envelope_bounded(*adsr, total as int, t as int);
        }
    }
    if t < adsr.attack {
        proof {
            assert(0 <= t * FX_ONE <= 600_000_000_000_000int) by (nonlinear_arith)
                requires
                    0 <= t <= 600_000_000,
                    FX_ONE == 1_000_000,
            ;
        }
        fx_div(t * FX_ONE, adsr.attack)
    } else if t < adsr.attack + adsr.decay {
        proof {
            assert(0 <= (t - adsr.attack) * (FX_ONE - adsr.sustain) <= 600_000_000_000_000int)
                by (nonlinear_arith)
                requires
                    0 <= t - adsr.attack <= 600_000_000,
                    0 <= FX_ONE - adsr.sustain <= 1_000_000,
            ;
            crate::fixed::lemma_div_tz_bounds(
                ((t - adsr.attack) * (FX_ONE - adsr.sustain)) as int,
                adsr.decay as int,
            );
        }
        FX_ONE - fx_div((t - adsr.attack) * (FX_ONE - adsr.sustain), adsr.decay)
    } else if t < total - adsr.release {
        adsr.sustain
    } else if adsr.release > 0 {
        proof {
            assert(
                -600_000_000_000_000int <= adsr.sustain * (total - t) <= 600_000_000_000_000int
            ) by (nonlinear_arith)
                requires
                    0 <= adsr.sustain <= 1_000_000,
                    -600_000_000 <= total - t <= 600_000_000,
            ;
            crate::fixed::lemma_div_tz_bounds(
                (adsr.sustain * (total - t)) as int,
                adsr.release as int,
            );
        }
        fx_div(adsr.sustain * (total - t), adsr.release)
    } else {
        0
    }
}

/// Shape a raw waveform value by the envelope and the headroom factor.
pub open spec fn spec_shaped(wave: int, env: int) -> int {
    div_tz(div_tz(wave * env, FX_ONE as int) * (HEADROOM_FX as int), FX_ONE as int)
}

/// A shaped sample never exceeds the headroom amplitude.
pub proof fn lemma_shaped_bounded(wave: int, env: int)
    requires
        mag(wave) <= FX_ONE,
        0 <= env <= FX_ONE,
    ensures
        mag(spec_shaped(wave, env)) <= HEADROOM_FX,
{
    crate::fixed::lemma_scale_mag(wave, env, FX_ONE as int, FX_ONE as int);
    let s1 = div_tz(wave * env, FX_ONE as int);
    crate::fixed::lemma_scale_mag(s1, HEADROOM_FX as int, FX_ONE as int, FX_ONE as int);
    vstd::arithmetic::div_mod::lemma_multiply_divide_le(
        (FX_ONE as int) * (HEADROOM_FX as int),
        FX_ONE as int,
        HEADROOM_FX as int,
    );
}

/// Shape a raw waveform value by the envelope and the headroom factor.
fn shaped_value(wave: i64, env: i64) -> (r: i64)
    requires
        mag(wave as int) <= FX_ONE,
        0 <= env <= FX_ONE,
    ensures
        r == spec_shaped(wave as int, env as int),
        mag(r as int) <= HEADROOM_FX,
{
    proof {
        lemma_shaped_bounded(wave as int, env as int);
        crate::fixed::lemma_scale_mag(wave as int, env as int, FX_ONE as int, FX_ONE as int);
        assert(mag(wave * env) <= 1_000_000_000_000int) by (nonlinear_arith)
            requires
                mag(wave as int) <= FX_ONE,
                0 <= env <= FX_ONE,
        ;
    }
    let s1 = fx_mul_div(wave, env, FX_ONE);
    proof {
        assert(mag(s1 * HEADROOM_FX) <= 1_000_000_000_000int) by (nonlinear_arith)
            requires
                mag(s1 as int) <= FX_ONE,
        ;
    }
    fx_mul_div(s1, HEADROOM_FX, FX_ONE)
}

/// The number of samples a stream of `d` fixed-point seconds holds at
/// `rate` Hz: the count of sample instants that fall strictly before `d`.
pub open spec fn spec_total_samples(d: int, rate: int) -> int {
    (d * rate + FX_ONE - 1) / (FX_ONE as int)
}

/// A sample index lies before the end of the stream exactly when its
/// instant falls strictly before the duration.
pub proof fn lemma_sample_in_stream(d: int, rate: int, n: int)
    requires
        0 <= d,
        0 < rate,
        0 <= n,
    ensures
        n * (FX_ONE as int) < d * rate <==> n < spec_total_samples(d, rate),
{
    let one = FX_ONE as int;
    let total = spec_total_samples(d, rate);
    vstd::arithmetic::div_mod::lemma_fundamental_div_mod(d * rate + one - 1, one);
    vstd::arithmetic::div_mod::lemma_mod_bound(d * rate + one - 1, one);
    if n * one < d * rate {
        assert(n * one <= d * rate - 1);
        assert((n + 1) * one <= d * rate + one - 1) by (nonlinear_arith)
            requires
                n * one <= d * rate - 1,
                one == 1_000_000,
        ;
        assert(total * one >= (n + 1) * one) by {
            assert(total * one > d * rate + one - 1 - one);
        }
        assert(total >= n + 1) by (nonlinear_arith)
            requires
                total * one >= (n + 1) * one,
                one > 0,
        ;
    }
    if n < total {
        assert(n + 1 <= total);
        assert((n + 1) * one <= total * one) by (nonlinear_arith)
            requires
                n + 1 <= total,
                one > 0,
        ;
        assert(total * one <= d * rate + one - 1);
        assert(n * one <= d * rate - 1);
    }
}

/// The stock envelope: 0.1 s attack, 0.1 s decay, 0.7 sustain, 0.2 s
/// release.
pub open spec fn spec_default_adsr() -> ADSR {
    ADSR { attack: 100_000, decay: 100_000, sustain: 700_000, release: 200_000 }
}

/// The sample an oscillator with the given configuration produces at index
/// `n`: the waveform at the accumulated phase, shaped by the envelope at
/// the sample's instant and by the headroom factor.
pub open spec fn spec_oscillator_sample_with(
    frequency: int,
    waveform: WaveForm,
    adsr: ADSR,
    duration: int,
    n: int,
) -> int {
    let t = (n * (FX_ONE as int)) / (SAMPLE_RATE as int);
    let phase = ((n * frequency) / (SAMPLE_RATE as int)) % (FX_ONE as int);
    spec_shaped(spec_wave(waveform, phase), spec_envelope(adsr, duration, t))
}

/// The sample at index `n` of an oscillator with the stock envelope.
pub open spec fn spec_oscillator_sample(
    frequency: int,
    waveform: WaveForm,
    duration: int,
    n: int,
) -> int {
    spec_oscillator_sample_with(frequency, waveform, spec_default_adsr(), duration, n)
}

/// A positive duration yields at least one sample.
pub proof fn lemma_total_samples_pos(d: int, rate: int)
    requires
        d >= 1,
        rate >= 1,
    ensures
        spec_total_samples(d, rate) >= 1,
{
    assert(d * rate >= 1) by (nonlinear_arith)
        requires
            d >= 1,
            rate >= 1,
    ;
    vstd::arithmetic::div_mod::lemma_div_multiples_vanish(1, FX_ONE as int);
    crate::fixed::lemma_div_le((FX_ONE as int) * 1, d * rate + FX_ONE - 1, FX_ONE as int);
}

/// A tenth of a second at the library sample rate holds exactly 4410
/// samples, whatever the frequency or waveform: the sample count of a
/// stream depends on its duration and the rate alone.
pub proof fn lemma_tenth_second_sample_count()
    ensures
        spec_total_samples(100_000, SAMPLE_RATE as int) == 4410,
{
    vstd::arithmetic::div_mod::lemma_fundamental_div_mod_converse(
        100_000 * (SAMPLE_RATE as int) + FX_ONE - 1,
        FX_ONE as int,
        4410,
        999_999,
    );
}

/// Custom oscillator producing a finite stream of shaped samples for one
/// frequency, waveform and duration.
pub struct Oscillator {
    frequency: i64,
    waveform: WaveForm,
    adsr: ADSR,
    sample_rate: u32,
    current_sample: usize,
    total_duration: i64,
}

impl Oscillator {
    /// Well-formed oscillator state.
    pub closed spec fn wf(&self) -> bool {
        &&& 0 <= self.frequency <= FREQ_MAX_FX
        &&& self.adsr.wf()
        &&& 0 <= self.total_duration <= DUR_MAX_FX
        &&& self.sample_rate == SAMPLE_RATE
        &&& self.current_sample <= self.spec_total_samples()
    }

    /// The oscillator's frequency, in millionths of a Hz.
    pub closed spec fn spec_frequency(&self) -> i64 {
        self.frequency
    }

    /// The oscillator's waveform.
    pub closed spec fn spec_waveform(&self) -> WaveForm {
        self.waveform
    }

    /// The oscillator's envelope.
    pub closed spec fn spec_adsr(&self) -> ADSR {
        self.adsr
    }

    /// The configured total duration, in fixed-point seconds.
    pub closed spec fn spec_total_duration(&self) -> i64 {
        self.total_duration
    }

    /// The index of the next sample to produce.
    pub closed spec fn spec_current_sample(&self) -> int {
        self.current_sample as int
    }

    /// How many samples the whole stream holds.
    pub closed spec fn spec_total_samples(&self) -> int {
        spec_total_samples(self.total_duration as int, self.sample_rate as int)
    }

    /// The sample rate as a mathematical integer (proof helper).
    pub closed spec fn spec_sample_rate_int(&self) -> int {
        self.sample_rate as int
    }

    /// The sample the oscillator produces at index `n`: the waveform at
    /// the accumulated phase, shaped by the envelope at the sample's
    /// instant and by the headroom factor.
    pub closed spec fn spec_sample_at(&self, n: int) -> int {
        spec_oscillator_sample_with(
            self.frequency as int,
            self.waveform,
            self.adsr,
            self.total_duration as int,
            n,
        )
    }

    /// The sample at an index is a function of the oscillator's
    /// configuration alone.
    pub proof fn lemma_sample_formula(&self, n: int)
        ensures
            self.spec_sample_at(n) == spec_oscillator_sample_with(
                self.spec_frequency() as int,
                self.spec_waveform(),
                self.spec_adsr(),
                self.spec_total_duration() as int,
                n,
            ),
    {
    }

    /// Create a new oscillator with the specified parameters and the stock
    /// envelope.
    pub fn new(frequency: i64, waveform: WaveForm, duration: i64) -> (r: Oscillator)
        requires
            0 <= frequency <= FREQ_MAX_FX,
            0 <= duration <= DUR_MAX_FX,
        ensures
            r.wf(),
            r.spec_frequency() == frequency,
            r.spec_waveform() == waveform,
            r.spec_adsr() == (ADSR {
                attack: 100_000,
                decay: 100_000,
                sustain: 700_000,
                release: 200_000,
            }),
            r.spec_total_duration() == duration,
            r.spec_current_sample() == 0,
            r.spec_total_samples() == spec_total_samples(duration as int, SAMPLE_RATE as int),
    {
        proof {
            vstd::arithmetic::div_mod::lemma_div_pos_is_pos(
                duration * (SAMPLE_RATE as int) + FX_ONE - 1,
                FX_ONE as int,
            );
        }
        Oscillator {
            frequency,
            waveform,
            adsr: ADSR { attack: 100_000, decay: 100_000, sustain: 700_000, release: 200_000 },
            sample_rate: SAMPLE_RATE,
            current_sample: 0,
            total_duration: duration,
        }
    }

    /// Set custom ADSR envelope parameters.
    pub fn with_adsr(self, adsr: ADSR) -> (r: Oscillator)
        requires
            self.wf(),
            adsr.wf(),
        ensures
            r.wf(),
            r.spec_adsr() == adsr,
            r.spec_frequency() == self.spec_frequency(),
            r.spec_waveform() == self.spec_waveform(),
            r.spec_total_duration() == self.spec_total_duration(),
            r.spec_total_samples() == self.spec_total_samples(),
            r.spec_current_sample() == self.spec_current_sample(),
    {
        Oscillator { adsr, ..self }
    }

    /// The oscillator's frequency in millionths of a Hz.
    pub fn frequency(&self) -> (r: i64)
        ensures
            r == self.spec_frequency(),
    {
        self.frequency
    }

    /// Calculate the amplitude envelope value at a given time (fixed-point
    /// seconds).
    pub fn get_amplitude_envelope(&self, time: i64) -> (r: i64)
        requires
            self.wf(),
            0 <= time <= DUR_MAX_FX,
        ensures
            r == spec_envelope(self.spec_adsr(), self.spec_total_duration() as int, time as int),
            time < self.spec_total_duration() ==> 0 <= r <= FX_ONE,
    {
        envelope_value(&self.adsr, self.total_duration, time)
    }

    /// Pull the next sample: `Some` of the shaped sample at the current
    /// index while the stream lasts, `None` once the elapsed time reaches
    /// the duration.
    pub fn next_sample(&mut self) -> (r: Option<i64>)
        requires
            old(self).wf(),
        ensures
            final(self).wf(),
            final(self).spec_frequency() == old(self).spec_frequency(),
            final(self).spec_waveform() == old(self).spec_waveform(),
            final(self).spec_adsr() == old(self).spec_adsr(),
            final(self).spec_total_duration() == old(self).spec_total_duration(),
            final(self).spec_total_samples() == old(self).spec_total_samples(),
            r is Some <==> old(self).spec_current_sample() < old(self).spec_total_samples(),
            r is Some ==> final(self).spec_current_sample() == old(self).spec_current_sample()
                + 1,
            r is None ==> final(self).spec_current_sample() == old(self).spec_current_sample(),
            r matches Some(v) ==> v == old(self).spec_sample_at(old(self).spec_current_sample()),
            r matches Some(v) ==> mag(v as int) <= HEADROOM_FX,
    {
        let n = self.current_sample;
        let rate: i64 = self.sample_rate as i64;
        proof {
            lemma_sample_in_stream(
                self.total_duration as int,
                rate as int,
                n as int,
            );
            assert(n * (FX_ONE as int) <= self.spec_total_samples() * (FX_ONE as int))
                by (nonlinear_arith)
                requires
                    n <= self.spec_total_samples(),
                    FX_ONE == 1_000_000,
            ;
            assert(self.spec_total_samples() <= 27_000_000) by {
                vstd::arithmetic::div_mod::lemma_div_is_ordered(
                    self.total_duration * (SAMPLE_RATE as int) + FX_ONE - 1,
                    DUR_MAX_FX * (SAMPLE_RATE as int) + FX_ONE - 1,
                    FX_ONE as int,
                );
            }
            assert(0 <= self.total_duration * rate <= 27_000_000_000_000int) by (nonlinear_arith)
                requires
                    0 <= self.total_duration <= DUR_MAX_FX,
                    rate == 44100,
            ;
        }
        if (n as i64) * FX_ONE >= self.total_duration * rate {
            return None;
        }
        proof {
            assert(0 <= (n as i64) * self.frequency <= 540_000_000_000_000_000int)
                by (nonlinear_arith)
                requires
                    0 <= n <= 27_000_000,
                    0 <= self.frequency <= FREQ_MAX_FX,
            ;
            vstd::arithmetic::div_mod::lemma_div_pos_is_pos(
                ((n as i64) * self.frequency) as int,
                rate as int,
            );
            vstd::arithmetic::div_mod::lemma_mod_bound(
                ((n as i64) * self.frequency) / (rate as int),
                FX_ONE as int,
            );
            assert(0 <= (n as i64) * FX_ONE <= 27_000_000_000_000int) by (nonlinear_arith)
                requires
                    0 <= n <= 27_000_000,
                    FX_ONE == 1_000_000,
            ;
            crate::fixed::lemma_div_tz_bounds((n as i64) * FX_ONE, rate as int);
            assert(((n as i64) * FX_ONE) as int / (rate as int) < self.total_duration) by {
                vstd::arithmetic::div_mod::lemma_multiply_divide_lt(
                    (n as i64) * FX_ONE as int,
                    rate as int,
                    self.total_duration as int,
                );
            }
        }
        let t = fx_div((n as i64) * FX_ONE, rate);
        let phase = fx_div((n as i64) * self.frequency, rate) % FX_ONE;
        let wave = wave_value(self.waveform, phase);
        let env = envelope_value(&self.adsr, self.total_duration, t);
        let s = shaped_value(wave, env);
        self.current_sample = n + 1;
        Some(s)
    }
}

/// The very first sample of any oscillator with a positive attack is
/// exactly zero: the envelope ramp starts at zero, and zero shapes every
/// waveform value to zero.
pub proof fn lemma_first_sample_zero(o: Oscillator)
    requires
        o.wf(),
        o.spec_adsr().attack > 0,
    ensures
        o.spec_sample_at(0) == 0,
{
    let one = FX_ONE as int;
    vstd::arithmetic::div_mod::lemma_div_of0(o.spec_sample_rate_int());
    assert(spec_envelope(o.spec_adsr(), o.spec_total_duration() as int, 0) == 0) by {
        vstd::arithmetic::div_mod::lemma_div_of0(o.spec_adsr().attack as int);
    }
    vstd::arithmetic::div_mod::lemma_mod_bound(0, one);
}

/// Every sample an oscillator can produce stays within the headroom
/// amplitude, itself within the unit amplitude.
pub proof fn lemma_oscillator_bounded(o: Oscillator, n: int)
    requires
        o.wf(),
        0 <= n < o.spec_total_samples(),
    ensures
        mag(o.spec_sample_at(n)) <= HEADROOM_FX < FX_ONE,
{
    let one = FX_ONE as int;
    let rate = o.spec_sample_rate_int();
    let t = (n * one) / rate;
    let phase = ((n * o.spec_frequency()) / rate) % one;
    vstd::arithmetic::div_mod::lemma_mod_bound((n * o.spec_frequency()) / rate, one);
    lemma_sample_in_stream(o.spec_total_duration() as int, rate, n);
    vstd::arithmetic::div_mod::lemma_div_pos_is_pos(n * one, rate);
    let d = o.spec_total_duration() as int;
    assert(n * one < d * rate);
    assert(d * rate == rate * d) by (nonlinear_arith);
    vstd::arithmetic::div_mod::lemma_multiply_divide_lt(n * one, rate, d);
    lemma_wave_bounded(o.spec_waveform(), phase);
    lemma_envelope_bounded(o.spec_adsr(), o.spec_total_duration() as int, t);
    lemma_shaped_bounded(
        spec_wave(o.spec_waveform(), phase),
        spec_envelope(o.spec_adsr(), o.spec_total_duration() as int, t),
    );
}

/// Layer configuration for multi-layered synthesis: a frequency ratio
/// relative to the base frequency, a waveform, an amplitude weight and a
/// phase offset as a fraction of a cycle.
#[derive(Clone, Copy, Debug)]
pub struct OscillatorLayer {
    pub frequency_offset: i64,
    pub waveform: WaveForm,
    pub amplitude: i64,
    pub phase_offset: i64,
}

impl OscillatorLayer {
    /// Valid layer parameters.
    pub open spec fn wf(&self) -> bool {
        &&& 0 <= self.frequency_offset <= 32 * FX_ONE
        &&& 0 <= self.amplitude <= FX_ONE
        &&& 0 <= self.phase_offset < FX_ONE
    }
}

impl Default for OscillatorLayer {
    /// The neutral layer: unit ratio, sine, full amplitude, no offset.
    fn default() -> (r: OscillatorLayer)
        ensures
            r.frequency_offset == FX_ONE,
            r.waveform == WaveForm::Sine,
            r.amplitude == FX_ONE,
            r.phase_offset == 0,
            r.wf(),
    {
        OscillatorLayer {
            frequency_offset: FX_ONE,
            waveform: WaveForm::Sine,
            amplitude: FX_ONE,
            phase_offset: 0,
        }
    }
}

/// The contribution of one layer at sample index `n`: the layer's waveform
/// at its own accumulated phase, weighted by its amplitude.
pub open spec fn spec_layer_value(base: int, layer: OscillatorLayer, n: int, rate: int) -> int {
    let freq = div_tz(base * layer.frequency_offset, FX_ONE as int);
    let phase = (div_tz(n * freq, rate) + layer.phase_offset) % (FX_ONE as int);
    div_tz(spec_wave(layer.waveform, phase) * layer.amplitude, FX_ONE as int)
}

/// The sum of all layer contributions at sample index `n`.
pub open spec fn spec_combined_value(
    layers: Seq<OscillatorLayer>,
    base: int,
    n: int,
    rate: int,
) -> int
    decreases layers.len(),
{
    if layers.len() == 0 {
        0
    } else {
        spec_combined_value(layers.drop_last(), base, n, rate) + spec_layer_value(
            base,
            layers.last(),
            n,
            rate,
        )
    }
}

/// The sum of all layer amplitude weights.
pub open spec fn spec_total_amplitude(layers: Seq<OscillatorLayer>) -> int
    decreases layers.len(),
{
    if layers.len() == 0 {
        0
    } else {
        spec_total_amplitude(layers.drop_last()) + layers.last().amplitude
    }
}

/// One layer's contribution never exceeds its amplitude weight.
pub proof fn lemma_layer_value_bounded(base: int, layer: OscillatorLayer, n: int, rate: int)
    requires
        layer.wf(),
        rate > 0,
    ensures
        mag(spec_layer_value(base, layer, n, rate)) <= layer.amplitude,
{
    let one = FX_ONE as int;
    let freq = div_tz(base * layer.frequency_offset, one);
    let phase = (div_tz(n * freq, rate) + layer.phase_offset) % one;
    vstd::arithmetic::div_mod::lemma_mod_bound(
        div_tz(n * freq, rate) + layer.phase_offset,
        one,
    );
    lemma_wave_bounded(layer.waveform, phase);
    crate::fixed::lemma_scale_mag(
        spec_wave(layer.waveform, phase),
        layer.amplitude as int,
        one,
        one,
    );
    vstd::arithmetic::div_mod::lemma_multiply_divide_le(
        one * layer.amplitude,
        one,
        layer.amplitude as int,
    );
}

/// The combined value is bounded by the total amplitude, which itself is
/// bounded by the layer count times the unit weight.
pub proof fn lemma_combined_bounded(layers: Seq<OscillatorLayer>, base: int, n: int, rate: int)
    requires
        forall|i: int| 0 <= i < layers.len() ==> (#[trigger] layers[i]).wf(),
        rate > 0,
    ensures
        mag(spec_combined_value(layers, base, n, rate)) <= spec_total_amplitude(layers),
        0 <= spec_total_amplitude(layers) <= layers.len() * FX_ONE,
    decreases layers.len(),
{
    if layers.len() == 0 {
    } else {
        assert(forall|i: int| 0 <= i < layers.drop_last().len() ==> (#[trigger] layers.drop_last()[
            i
        ]).wf());
        lemma_combined_bounded(layers.drop_last(), base, n, rate);
        lemma_layer_value_bounded(base, layers.last(), n, rate);
        assert((layers.len() - 1) * FX_ONE + FX_ONE == layers.len() * FX_ONE) by (nonlinear_arith);
    }
}

/// The sample a layered oscillator with the given configuration produces
/// at index `n`: the amplitude-normalized sum of the layer contributions,
/// shaped by the envelope at the sample's instant and by the headroom
/// factor.  With no positive amplitude weight the pre-envelope signal is
/// zero.
pub open spec fn spec_layered_sample_with(
    base: int,
    layers: Seq<OscillatorLayer>,
    adsr: ADSR,
    duration: int,
    n: int,
) -> int {
    let t = (n * (FX_ONE as int)) / (SAMPLE_RATE as int);
    let combined = spec_combined_value(layers, base, n, SAMPLE_RATE as int);
    let total_amp = spec_total_amplitude(layers);
    let normalized = if total_amp > 0 {
        div_tz(combined * (FX_ONE as int), total_amp)
    } else {
        0
    };
    spec_shaped(normalized, spec_envelope(adsr, duration, t))
}

/// Multi-layered oscillator that combines multiple waveforms, normalized
/// by the total amplitude weight, for richer sounds.
pub struct LayeredOscillator {
    base_frequency: i64,
    layers: Vec<OscillatorLayer>,
    adsr: ADSR,
    sample_rate: u32,
    current_sample: usize,
    total_duration: i64,
}

impl LayeredOscillator {
    /// Well-formed layered oscillator state.
    pub closed spec fn wf(&self) -> bool {
        &&& 0 <= self.base_frequency <= FREQ_MAX_FX
        &&& 1 <= self.layers@.len() <= MAX_LAYERS
        &&& forall|i: int| 0 <= i < self.layers@.len() ==> (#[trigger] self.layers@[i]).wf()
        &&& forall|i: int| 0 <= i < self.layers@.len() ==> div_tz(
            self.base_frequency * (#[trigger] self.layers@[i]).frequency_offset,
            FX_ONE as int,
        ) <= FREQ_MAX_FX
        &&& self.adsr.wf()
        &&& 0 <= self.total_duration <= DUR_MAX_FX
        &&& self.sample_rate == SAMPLE_RATE
        &&& self.current_sample <= self.spec_total_samples()
    }

    /// The base frequency, in millionths of a Hz.
    pub closed spec fn spec_base_frequency(&self) -> i64 {
        self.base_frequency
    }

    /// The layer list.
    pub closed spec fn spec_layers(&self) -> Seq<OscillatorLayer> {
        self.layers@
    }

    /// The envelope.
    pub closed spec fn spec_adsr(&self) -> ADSR {
        self.adsr
    }

    /// The configured total duration, in fixed-point seconds.
    pub closed spec fn spec_total_duration(&self) -> i64 {
        self.total_duration
    }

    /// The index of the next sample to produce.
    pub closed spec fn spec_current_sample(&self) -> int {
        self.current_sample as int
    }

    /// How many samples the whole stream holds.
    pub closed spec fn spec_total_samples(&self) -> int {
        spec_total_samples(self.total_duration as int, self.sample_rate as int)
    }

    /// The sample produced at index `n`: the amplitude-normalized sum of
    /// the layer contributions, shaped by the envelope and the headroom
    /// factor.  With no positive amplitude weight the pre-envelope signal
    /// is zero.
    pub closed spec fn spec_sample_at(&self, n: int) -> int {
        spec_layered_sample_with(
            self.base_frequency as int,
            self.layers@,
            self.adsr,
            self.total_duration as int,
            n,
        )
    }

    /// The sample at an index is a function of the oscillator's
    /// configuration alone.
    pub proof fn lemma_sample_formula(&self, n: int)
        ensures
            self.spec_sample_at(n) == spec_layered_sample_with(
                self.spec_base_frequency() as int,
                self.spec_layers(),
                self.spec_adsr(),
                self.spec_total_duration() as int,
                n,
            ),
    {
    }

    /// Create a new layered oscillator with a single neutral layer of the
    /// given waveform.
    pub fn new(frequency: i64, waveform: WaveForm, duration: i64) -> (r: LayeredOscillator)
        requires
            0 <= frequency <= FREQ_MAX_FX,
            0 <= duration <= DUR_MAX_FX,
        ensures
            r.wf(),
            r.spec_base_frequency() == frequency,
            r.spec_layers().len() == 1,
            r.spec_layers()[0] == (OscillatorLayer {
                frequency_offset: FX_ONE,
                waveform,
                amplitude: FX_ONE,
                phase_offset: 0,
            }),
            r.spec_adsr() == (ADSR {
                attack: 100_000,
                decay: 100_000,
                sustain: 700_000,
                release: 200_000,
            }),
            r.spec_total_duration() == duration,
            r.spec_current_sample() == 0,
            r.spec_total_samples() == spec_total_samples(duration as int, SAMPLE_RATE as int),
    {
        let default_layer = OscillatorLayer {
            frequency_offset: FX_ONE,
            waveform,
            amplitude: FX_ONE,
            phase_offset: 0,
        };
        let mut layers: Vec<OscillatorLayer> = Vec::new();
        layers.push(default_layer);
        proof {
            vstd::arithmetic::div_mod::lemma_div_multiples_vanish(
                frequency as int,
                FX_ONE as int,
            );
            assert(frequency * (FX_ONE as int) == (FX_ONE as int) * frequency)
                by (nonlinear_arith);
            vstd::arithmetic::div_mod::lemma_div_pos_is_pos(
                duration * (SAMPLE_RATE as int) + FX_ONE - 1,
                FX_ONE as int,
            );
        }
        LayeredOscillator {
            base_frequency: frequency,
            layers,
            adsr: ADSR { attack: 100_000, decay: 100_000, sustain: 700_000, release: 200_000 },
            sample_rate: SAMPLE_RATE,
            current_sample: 0,
            total_duration: duration,
        }
    }

    /// Add a new layer to the oscillator.
    pub fn add_layer(self, layer: OscillatorLayer) -> (r: LayeredOscillator)
        requires
            self.wf(),
            layer.wf(),
            div_tz(self.spec_base_frequency() * layer.frequency_offset, FX_ONE as int)
                <= FREQ_MAX_FX,
            self.spec_layers().len() < MAX_LAYERS,
        ensures
            r.wf(),
            r.spec_layers() == self.spec_layers().push(layer),
            r.spec_base_frequency() == self.spec_base_frequency(),
            r.spec_adsr() == self.spec_adsr(),
            r.spec_total_duration() == self.spec_total_duration(),
            r.spec_total_samples() == self.spec_total_samples(),
            r.spec_current_sample() == self.spec_current_sample(),
    {
        let mut this = self;
        this.layers.push(layer);
        this
    }

    /// Add a harmonic layer: a whole-number (or any fixed-point) frequency
    /// multiplier.
    pub fn add_harmonic(self, multiplier: i64, waveform: WaveForm, amplitude: i64) -> (r:
        LayeredOscillator)
        requires
            self.wf(),
            0 <= multiplier <= 32 * FX_ONE,
            0 <= amplitude <= FX_ONE,
            div_tz(self.spec_base_frequency() * multiplier, FX_ONE as int) <= FREQ_MAX_FX,
            self.spec_layers().len() < MAX_LAYERS,
        ensures
            r.wf(),
            r.spec_layers() == self.spec_layers().push(
                OscillatorLayer {
                    frequency_offset: multiplier,
                    waveform,
                    amplitude,
                    phase_offset: 0,
                },
            ),
            r.spec_base_frequency() == self.spec_base_frequency(),
            r.spec_adsr() == self.spec_adsr(),
            r.spec_total_duration() == self.spec_total_duration(),
            r.spec_total_samples() == self.spec_total_samples(),
            r.spec_current_sample() == self.spec_current_sample(),
    {
        self.add_layer(
            OscillatorLayer { frequency_offset: multiplier, waveform, amplitude, phase_offset: 0 },
        )
    }

    /// Add a detune layer: a slight frequency offset, given in cents
    /// (hundredths of a semitone), for a chorus effect.
    pub fn add_detune(self, cents: i64, waveform: WaveForm, amplitude: i64) -> (r:
        LayeredOscillator)
        requires
            self.wf(),
            -1200 * FX_ONE <= cents <= 1200 * FX_ONE,
            0 <= amplitude <= FX_ONE,
            self.spec_base_frequency() <= 5_000_000_000,
            self.spec_layers().len() < MAX_LAYERS,
        ensures
            r.wf(),
            r.spec_layers().len() == self.spec_layers().len() + 1,
            r.spec_layers().last().frequency_offset == crate::pitch::spec_pitch_ratio(
                div_tz(cents as int, 100),
            ),
            r.spec_layers().last().waveform == waveform,
            r.spec_layers().last().amplitude == amplitude,
            r.spec_layers().last().phase_offset == 0,
            r.spec_layers().drop_last() == self.spec_layers(),
            cents >= 0 ==> r.spec_layers().last().frequency_offset >= FX_ONE,
            r.spec_base_frequency() == self.spec_base_frequency(),
            r.spec_adsr() == self.spec_adsr(),
            r.spec_total_duration() == self.spec_total_duration(),
            r.spec_total_samples() == self.spec_total_samples(),
            r.spec_current_sample() == self.spec_current_sample(),
    {
        let semitones = fx_div(cents, 100);
        let frequency_offset = crate::pitch::pitch_ratio(semitones);
        proof {
            crate::fixed::lemma_div_tz_bounds(cents as int, 100);
            assert(self.spec_base_frequency() * frequency_offset <= 5_000_000_000
                * 4_000_000int) by (nonlinear_arith)
                requires
                    0 <= self.spec_base_frequency() <= 5_000_000_000,
                    0 < frequency_offset <= 4_000_000,
            ;
            crate::fixed::lemma_div_tz_mag(
                (self.spec_base_frequency() * frequency_offset) as int,
                FX_ONE as int,
            );
            crate::fixed::lemma_div_le(
                (self.spec_base_frequency() * frequency_offset) as int,
                5_000_000_000 * 4_000_000int,
                FX_ONE as int,
            );
            assert(self.spec_base_frequency() * frequency_offset >= 0) by (nonlinear_arith)
                requires
                    0 <= self.spec_base_frequency(),
                    0 < frequency_offset,
            ;
        }
        let layer = OscillatorLayer { frequency_offset, waveform, amplitude, phase_offset: 0 };
        let r = self.add_layer(layer);
        proof {
            assert(r.spec_layers().drop_last() =~= self.spec_layers());
        }
        r
    }

    /// Set custom ADSR envelope parameters.
    pub fn with_adsr(self, adsr: ADSR) -> (r: LayeredOscillator)
        requires
            self.wf(),
            adsr.wf(),
        ensures
            r.wf(),
            r.spec_adsr() == adsr,
            r.spec_base_frequency() == self.spec_base_frequency(),
            r.spec_layers() == self.spec_layers(),
            r.spec_total_duration() == self.spec_total_duration(),
            r.spec_total_samples() == self.spec_total_samples(),
            r.spec_current_sample() == self.spec_current_sample(),
    {
        LayeredOscillator { adsr, ..self }
    }

    /// The base frequency in millionths of a Hz.
    pub fn base_frequency(&self) -> (r: i64)
        ensures
            r == self.spec_base_frequency(),
    {
        self.base_frequency
    }

    /// The layer list.
    pub fn layers(&self) -> (r: &Vec<OscillatorLayer>)
        ensures
            r@ == self.spec_layers(),
    {
        &self.layers
    }

    /// Calculate the amplitude envelope value at a given time (fixed-point
    /// seconds).
    pub fn get_amplitude_envelope(&self, time: i64) -> (r: i64)
        requires
            self.wf(),
            0 <= time <= DUR_MAX_FX,
        ensures
            r == spec_envelope(self.spec_adsr(), self.spec_total_duration() as int, time as int),
            time < self.spec_total_duration() ==> 0 <= r <= FX_ONE,
    {
        envelope_value(&self.adsr, self.total_duration, time)
    }

    /// Pull the next sample: the normalized layer mix shaped by the
    /// envelope while the stream lasts, `None` once exhausted.
    pub fn next_sample(&mut self) -> (r: Option<i64>)
        requires
            old(self).wf(),
        ensures
            final(self).wf(),
            final(self).spec_base_frequency() == old(self).spec_base_frequency(),
            final(self).spec_layers() == old(self).spec_layers(),
            final(self).spec_adsr() == old(self).spec_adsr(),
            final(self).spec_total_duration() == old(self).spec_total_duration(),
            final(self).spec_total_samples() == old(self).spec_total_samples(),
            r is Some <==> old(self).spec_current_sample() < old(self).spec_total_samples(),
            r is Some ==> final(self).spec_current_sample() == old(self).spec_current_sample()
                + 1,
            r is None ==> final(self).spec_current_sample() == old(self).spec_current_sample(),
            r matches Some(v) ==> v == old(self).spec_sample_at(old(self).spec_current_sample()),
            r matches Some(v) ==> mag(v as int) <= HEADROOM_FX,
    {
        let n = self.current_sample;
        let rate: i64 = self.sample_rate as i64;
        proof {
            lemma_sample_in_stream(self.total_duration as int, rate as int, n as int);
            assert(self.spec_total_samples() <= 27_000_000) by {
                vstd::arithmetic::div_mod::lemma_div_is_ordered(
                    self.total_duration * (SAMPLE_RATE as int) + FX_ONE - 1,
                    DUR_MAX_FX * (SAMPLE_RATE as int) + FX_ONE - 1,
                    FX_ONE as int,
                );
            }
            assert(n * (FX_ONE as int) <= self.spec_total_samples() * (FX_ONE as int))
                by (nonlinear_arith)
                requires
                    n <= self.spec_total_samples(),
                    FX_ONE == 1_000_000,
            ;
            assert(0 <= self.total_duration * rate <= 27_000_000_000_000int) by (nonlinear_arith)
                requires
                    0 <= self.total_duration <= DUR_MAX_FX,
                    rate == 44100,
            ;
        }
        if (n as i64) * FX_ONE >= self.total_duration * rate {
            return None;
        }
        let ghost base = self.base_frequency as int;
        let ghost lseq = self.layers@;
        let mut combined: i64 = 0;
        let mut total_amplitude: i64 = 0;
        let mut i: usize = 0;
        let len = self.layers.len();
        while i < len
            invariant
                0 <= i <= len,
                len == lseq.len(),
                self.layers@ == lseq,
                1 <= len <= MAX_LAYERS,
                self.wf(),
                base == self.spec_base_frequency() as int,
                rate == SAMPLE_RATE,
                0 <= n <= 27_000_000,
                combined == spec_combined_value(lseq.take(i as int), base, n as int, rate as int),
                total_amplitude == spec_total_amplitude(lseq.take(i as int)),
                mag(combined as int) <= total_amplitude,
                0 <= total_amplitude <= i * FX_ONE,
            decreases len - i,
        {
            let layer = self.layers[i];
            proof {
                assert(lseq[i as int].wf());
                assert(0 <= base * layer.frequency_offset <= 640_000_000_000_000_000int)
                    by (nonlinear_arith)
                    requires
                        0 <= base <= FREQ_MAX_FX,
                        0 <= layer.frequency_offset <= 32_000_000,
                ;
            }
            let freq = fx_mul_div(self.base_frequency, layer.frequency_offset, FX_ONE);
            proof {
                crate::fixed::lemma_div_tz_mag((base * layer.frequency_offset) as int,
                    FX_ONE as int);
                assert(0 <= (n as i64) * freq <= 540_000_000_000_000_000int) by (nonlinear_arith)
                    requires
                        0 <= n <= 27_000_000,
                        0 <= freq <= FREQ_MAX_FX,
                ;
                crate::fixed::lemma_div_tz_bounds(((n as i64) * freq) as int, rate as int);
                vstd::arithmetic::div_mod::lemma_mod_bound(
                    (div_tz((n as i64) * freq as int, rate as int) + layer.phase_offset) as int,
                    FX_ONE as int,
                );
            }
            let raw = fx_div((n as i64) * freq, rate);
            let phase = (raw + layer.phase_offset) % FX_ONE;
            let wave = wave_value(layer.waveform, phase);
            proof {
                assert(mag((wave * layer.amplitude) as int) <= 1_000_000_000_000int)
                    by (nonlinear_arith)
                    requires
                        mag(wave as int) <= FX_ONE,
                        0 <= layer.amplitude <= FX_ONE,
                ;
                lemma_layer_value_bounded(base, layer, n as int, rate as int);
            }
            let value = fx_mul_div(wave, layer.amplitude, FX_ONE);
            proof {
                assert(lseq.take(i + 1 as int).drop_last() =~= lseq.take(i as int));
                assert(lseq.take(i + 1 as int).last() == lseq[i as int]);
            }
            combined = combined + value;
            total_amplitude = total_amplitude + layer.amplitude;
            i = i + 1;
        }
        proof {
            assert(lseq.take(len as int) =~= lseq);
        }
        let normalized: i64 = if total_amplitude > 0 {
            proof {
                assert(mag((combined as i64) * FX_ONE) == mag(combined as int) * FX_ONE)
                    by (nonlinear_arith)
                    requires
                        FX_ONE == 1_000_000,
                ;
                assert(mag(combined as int) * FX_ONE <= total_amplitude * FX_ONE)
                    by (nonlinear_arith)
                    requires
                        mag(combined as int) <= total_amplitude,
                        FX_ONE == 1_000_000,
                ;
                crate::fixed::lemma_div_tz_mag((combined * FX_ONE) as int,
                    total_amplitude as int);
                crate::fixed::lemma_div_le(
                    mag((combined * FX_ONE) as int),
                    (total_amplitude * FX_ONE) as int,
                    total_amplitude as int,
                );
                vstd::arithmetic::div_mod::lemma_div_multiples_vanish(
                    FX_ONE as int,
                    total_amplitude as int,
                );
                assert(total_amplitude * (FX_ONE as int) == (total_amplitude as int) * (
                FX_ONE as int)) by (nonlinear_arith);
            }
            fx_mul_div(combined, FX_ONE, total_amplitude)
        } else {
            0
        };
        proof {
            assert(mag(normalized as int) <= FX_ONE);
            assert(((n as i64) * FX_ONE) as int / (rate as int) < self.total_duration) by {
                vstd::arithmetic::div_mod::lemma_multiply_divide_lt(
                    (n as i64) * FX_ONE as int,
                    rate as int,
                    self.total_duration as int,
                );
                assert(self.total_duration * rate == rate * self.total_duration)
                    by (nonlinear_arith);
            }
            crate::fixed::lemma_div_tz_bounds(((n as i64) * FX_ONE) as int, rate as int);
            vstd::arithmetic::div_mod::lemma_div_pos_is_pos(((n as i64) * FX_ONE) as int,
                rate as int);
        }
        let t = fx_div((n as i64) * FX_ONE, rate);
        let env = envelope_value(&self.adsr, self.total_duration, t);
        let s = shaped_value(normalized, env);
        self.current_sample = n + 1;
        Some(s)
    }
}

/// The very first sample of any layered oscillator with a positive attack
/// is exactly zero, for any layer configuration: the shared envelope at
/// time zero is zero and multiplies the combined wave.
pub proof fn lemma_layered_first_sample_zero(o: LayeredOscillator)
    requires
        o.wf(),
        o.spec_adsr().attack > 0,
    ensures
        o.spec_sample_at(0) == 0,
{
    let one = FX_ONE as int;
    vstd::arithmetic::div_mod::lemma_div_of0(SAMPLE_RATE as int);
    assert(spec_envelope(o.spec_adsr(), o.spec_total_duration() as int, 0) == 0) by {
        vstd::arithmetic::div_mod::lemma_div_of0(o.spec_adsr().attack as int);
    }
    let combined = spec_combined_value(
        o.spec_layers(),
        o.spec_base_frequency() as int,
        0,
        SAMPLE_RATE as int,
    );
    let total_amp = spec_total_amplitude(o.spec_layers());
    let normalized = if total_amp > 0 {
        div_tz(combined * one, total_amp)
    } else {
        0
    };
    assert(spec_shaped(normalized, 0) == 0) by {
        vstd::arithmetic::div_mod::lemma_div_of0(one);
    }
}

/// A layered oscillator's output never exceeds the single-layer headroom
/// amplitude, independent of the number of layers and their weights: the
/// layer sum is normalized by the total weight before shaping.
pub proof fn lemma_layered_bounded(o: LayeredOscillator, n: int)
    requires
        o.wf(),
        0 <= n < o.spec_total_samples(),
    ensures
        mag(o.spec_sample_at(n)) <= HEADROOM_FX < FX_ONE,
{
    let one = FX_ONE as int;
    let rate = SAMPLE_RATE as int;
    let t = (n * one) / rate;
    lemma_sample_in_stream(o.spec_total_duration() as int, rate, n);
    vstd::arithmetic::div_mod::lemma_div_pos_is_pos(n * one, rate);
    let d = o.spec_total_duration() as int;
    assert(n * one < d * rate);
    assert(d * rate == rate * d) by (nonlinear_arith);
    vstd::arithmetic::div_mod::lemma_multiply_divide_lt(n * one, rate, d);
    lemma_combined_bounded(o.spec_layers(), o.spec_base_frequency() as int, n, rate);
    let combined = spec_combined_value(o.spec_layers(), o.spec_base_frequency() as int, n, rate);
    let total_amp = spec_total_amplitude(o.spec_layers());
    let normalized = if total_amp > 0 {
        div_tz(combined * one, total_amp)
    } else {
        0
    };
    if total_amp > 0 {
        assert(mag(combined * one) == mag(combined) * one) by (nonlinear_arith)
            requires
                one == 1_000_000,
        ;
        assert(mag(combined) * one <= total_amp * one) by (nonlinear_arith)
            requires
                mag(combined) <= total_amp,
                one == 1_000_000,
        ;
        crate::fixed::lemma_div_tz_mag(combined * one, total_amp);
        crate::fixed::lemma_div_le(mag(combined * one), total_amp * one, total_amp);
        vstd::arithmetic::div_mod::lemma_div_multiples_vanish(one, total_amp);
        assert(total_amp * one == total_amp * one) by (nonlinear_arith);
    }
    assert(mag(normalized) <= one);
    lemma_envelope_bounded(o.spec_adsr(), d, t);
    lemma_shaped_bounded(normalized, spec_envelope(o.spec_adsr(), d, t));
}

impl Source for LayeredOscillator {
    open spec fn inv(&self) -> bool {
        self.wf()
    }

    open spec fn remaining(&self) -> nat {
        (self.spec_total_samples() - self.spec_current_sample()) as nat
    }

    open spec fn bound(&self) -> int {
        HEADROOM_FX as int
    }

    open spec fn spec_channels(&self) -> u16 {
        1u16
    }

    open spec fn spec_sample_rate(&self) -> u32 {
        SAMPLE_RATE
    }

    open spec fn spec_duration(&self) -> i64 {
        self.spec_total_duration()
    }

    open spec fn spec_next_value(&self) -> int {
        self.spec_sample_at(self.spec_current_sample())
    }

    fn next(&mut self) -> (r: Option<i64>) {
        self.next_sample()
    }

    fn channels(&self) -> (c: u16) {
        1
    }

    fn sample_rate(&self) -> (sr: u32) {
        self.sample_rate
    }

    fn total_duration(&self) -> (d: i64) {
        self.total_duration
    }
}

impl Source for Oscillator {
    open spec fn inv(&self) -> bool {
        self.wf()
    }

    open spec fn remaining(&self) -> nat {
        (self.spec_total_samples() - self.spec_current_sample()) as nat
    }

    open spec fn bound(&self) -> int {
        HEADROOM_FX as int
    }

    open spec fn spec_channels(&self) -> u16 {
        1u16
    }

    open spec fn spec_sample_rate(&self) -> u32 {
        SAMPLE_RATE
    }

    open spec fn spec_duration(&self) -> i64 {
        self.spec_total_duration()
    }

    open spec fn spec_next_value(&self) -> int {
        self.spec_sample_at(self.spec_current_sample())
    }

    fn next(&mut self) -> (r: Option<i64>) {
        self.next_sample()
    }

    fn channels(&self) -> (c: u16) {
        1
    }

    fn sample_rate(&self) -> (sr: u32) {
        self.sample_rate
    }

    fn total_duration(&self) -> (d: i64) {
        self.total_duration
    }
}

} // verus!
