//! The jingle generator: tone and melody rendering into sample buffers,
//! buffer combination, quantization for container encoding, and the seeded
//! random variation that drives the presets.  Randomness comes from the
//! `rand` crate behind trusted wrappers; everything computed from the
//! drawn values is verified.

use vstd::prelude::*;
use crate::fixed::{div_tz, mag, fx_div, fx_mul_div, spec_clamp, FX_ONE};
use crate::audio::{Oscillator, WaveForm, spec_total_samples, HEADROOM_FX, FREQ_MAX_FX, DUR_MAX_FX};
use crate::music::{Melody, Note, Scale, MelodyPattern, spec_note_frequency};
use crate::error::JingleError;
use crate::SAMPLE_RATE;
use vstd::string::StringSliceAdditionalSpecFns;

verus! {

#[verifier::external_type_specification]
#[verifier::external_body]
pub struct ExStdRng(rand::rngs::StdRng);

/// Relies on rand's `StdRng::from_entropy`: a fresh generator seeded by
/// the operating system.  Nothing is promised of its stream.
#[verifier::external_body]
fn rng_from_entropy() -> rand::rngs::StdRng {
    <rand::rngs::StdRng as rand::SeedableRng>::from_entropy()
}

/// Relies on rand's `StdRng::seed_from_u64`: a generator seeded from the
/// given value.  Nothing is promised of its stream.
#[verifier::external_body]
fn rng_from_seed(seed: u64) -> rand::rngs::StdRng {
    <rand::rngs::StdRng as rand::SeedableRng>::seed_from_u64(seed)
}

/// Relies on rand's `Rng::gen_range` on an inclusive integer range: the
/// drawn value lies within the range; the call panics only on an empty
/// range, which the precondition rules out.
#[verifier::external_body]
fn rng_gen_range(rng: &mut rand::rngs::StdRng, lo: i64, hi: i64) -> (r: i64)
    requires
        lo <= hi,
    ensures
        lo <= r <= hi,
{
    rand::Rng::gen_range(rng, lo..=hi)
}

/// Relies on rand's `Rng::gen_ratio`: true with probability
/// `numerator / denominator`, certainly true when they are equal and
/// certainly false at zero; it panics only when the denominator is zero or
/// exceeded, which the precondition rules out.
#[verifier::external_body]
fn rng_gen_ratio(rng: &mut rand::rngs::StdRng, numerator: u32, denominator: u32) -> (r: bool)
    requires
        0 < denominator,
        numerator <= denominator,
    ensures
        numerator == denominator ==> r,
        numerator == 0 ==> !r,
{
    rand::Rng::gen_ratio(rng, numerator, denominator)
}

/// The FNV-1a offset basis.
pub const FNV_OFFSET: u64 = 0xcbf29ce484222325;

/// The FNV-1a prime.
pub const FNV_PRIME: u64 = 0x100000001b3;

/// The FNV-1a hash of a byte sequence, used to derive a numeric seed from
/// a string seed.
pub open spec fn spec_fnv1a(bytes: Seq<u8>) -> u64
    decreases bytes.len(),
{
    if bytes.len() == 0 {
        FNV_OFFSET
    } else {
        let mixed = spec_fnv1a(bytes.drop_last()) ^ (bytes.last() as u64);
        (((mixed as nat) * (FNV_PRIME as nat)) % 0x10000000000000000nat) as u64
    }
}

/// The samples a single tone yields: one shaped oscillator sample per
/// instant before the duration runs out.
pub open spec fn spec_tone_samples(frequency: int, waveform: WaveForm, duration: int) -> Seq<i64> {
    Seq::new(
        spec_total_samples(duration, SAMPLE_RATE as int) as nat,
        |n: int| crate::audio::spec_oscillator_sample(frequency, waveform, duration, n) as i64,
    )
}

/// The samples a melody yields: each note's tone at its frequency for the
/// note's duration, concatenated in order.
pub open spec fn spec_melody_samples(
    notes: Seq<(Note, i64)>,
    octave: int,
    waveform: WaveForm,
) -> Seq<i64>
    decreases notes.len(),
{
    if notes.len() == 0 {
        Seq::empty()
    } else {
        spec_melody_samples(notes.drop_last(), octave, waveform) + spec_tone_samples(
            spec_note_frequency(notes.last().0, octave),
            waveform,
            notes.last().1 as int,
        )
    }
}

/// Main generator for creating jingle audio: holds the sample rate, the
/// random generator and the seed it can be reset to.
pub struct JingleGenerator {
    sample_rate: u32,
    rng: rand::rngs::StdRng,
    current_seed: Option<u64>,
}

impl JingleGenerator {
    /// The generator's sample rate.
    pub closed spec fn spec_sample_rate(&self) -> u32 {
        self.sample_rate
    }

    /// The seed the generator can be reset to, if one was given.
    pub closed spec fn spec_current_seed(&self) -> Option<u64> {
        self.current_seed
    }

    /// Well-formed generator state.
    pub open spec fn wf(&self) -> bool {
        self.spec_sample_rate() == SAMPLE_RATE
    }

    /// Create a new jingle generator with a seed drawn from the operating
    /// system.
    pub fn new() -> (r: JingleGenerator)
        ensures
            r.wf(),
            r.spec_current_seed() is None,
    {
        JingleGenerator {
            sample_rate: SAMPLE_RATE,
            rng: rng_from_entropy(),
            current_seed: None,
        }
    }

    /// Create a new jingle generator with a specific seed.
    pub fn with_seed(seed: u64) -> (r: JingleGenerator)
        ensures
            r.wf(),
            r.spec_current_seed() == Some(seed),
    {
        JingleGenerator {
            sample_rate: SAMPLE_RATE,
            rng: rng_from_seed(seed),
            current_seed: Some(seed),
        }
    }

    /// Create a reproducible generator from a string seed: the numeric
    /// seed is the FNV-1a hash of the string's bytes, a fixed, documented
    /// function, so a string seed means the same stream on every build
    /// (the standard library's default hasher makes no such promise
    /// across releases).
    pub fn with_string_seed(seed: &str) -> (r: JingleGenerator)
        ensures
            r.wf(),
            r.spec_current_seed() == Some(spec_fnv1a(seed.spec_bytes())),
    {
        let bytes = seed.as_bytes();
        let ghost bs = seed.spec_bytes();
        let n = bytes.len();
        let mut h: u64 = FNV_OFFSET;
        let mut i: usize = 0;
        while i < n
            invariant
                0 <= i <= n,
                bytes@ == bs,
                n == bs.len(),
                h == spec_fnv1a(bs.take(i as int)),
            decreases n - i,
        {
            proof {
                assert(bs.take(i + 1 as int).drop_last() =~= bs.take(i as int));
            }
            h = (h ^ (bytes[i] as u64)).wrapping_mul(FNV_PRIME);
            i = i + 1;
        }
        proof {
            assert(bs.take(n as int) =~= bs);
        }
        Self::with_seed(h)
    }

    /// Reset the random generator to the original seed; fails when the
    /// generator was created without one.
    pub fn reset_seed(&mut self) -> (r: Result<(), JingleError>)
        requires
            old(self).wf(),
        ensures
            final(self).wf(),
            final(self).spec_current_seed() == old(self).spec_current_seed(),
            r is Ok <==> old(self).spec_current_seed() is Some,
            r is Err ==> r->Err_0 is RandomError,
    {
        match self.current_seed {
            Some(seed) => {
                self.rng = rng_from_seed(seed);
                Ok(())
            },
            None => Err(JingleError::RandomError),
        }
    }

    /// Set a new seed for the generator.
    pub fn set_seed(&mut self, seed: u64)
        requires
            old(self).wf(),
        ensures
            final(self).wf(),
            final(self).spec_current_seed() == Some(seed),
    {
        self.rng = rng_from_seed(seed);
        self.current_seed = Some(seed);
    }

    /// The generator's sample rate in Hz.
    pub fn sample_rate(&self) -> (r: u32)
        ensures
            r == self.spec_sample_rate(),
    {
        self.sample_rate
    }

    /// Get the current seed, if one is set.
    pub fn get_current_seed(&self) -> (r: Option<u64>)
        ensures
            r == self.spec_current_seed(),
    {
        self.current_seed
    }

    /// Create a new generator with the same seed but independent state;
    /// fails when the generator was created without a seed.
    pub fn fork(&self) -> (r: Result<JingleGenerator, JingleError>)
        requires
            self.wf(),
        ensures
            r is Ok <==> self.spec_current_seed() is Some,
            r matches Ok(g) ==> g.wf() && g.spec_current_seed() == self.spec_current_seed(),
            r is Err ==> r->Err_0 is RandomError,
    {
        match self.current_seed {
            Some(seed) => Ok(Self::with_seed(seed)),
            None => Err(JingleError::RandomError),
        }
    }

    /// Create a new generator whose seed is the original one shifted by a
    /// variation, for consistent but different randomness; fails when the
    /// generator was created without a seed.
    pub fn derive_seed(&self, variation: u64) -> (r: Result<JingleGenerator, JingleError>)
        requires
            self.wf(),
        ensures
            r is Ok <==> self.spec_current_seed() is Some,
            r matches Ok(g) ==> g.wf() && (self.spec_current_seed() matches Some(s) && g
                .spec_current_seed() == Some(s.wrapping_add(variation))),
            r is Err ==> r->Err_0 is RandomError,
    {
        match self.current_seed {
            Some(seed) => Ok(Self::with_seed(seed.wrapping_add(variation))),
            None => Err(JingleError::RandomError),
        }
    }

    /// Generate a single tone with the specified parameters: the full
    /// shaped sample stream of one oscillator with the stock envelope.
    pub fn generate_tone(&self, frequency: i64, duration: i64, waveform: WaveForm) -> (r: Vec<
        i64,
    >)
        requires
            self.wf(),
            0 <= frequency <= FREQ_MAX_FX,
            0 <= duration <= DUR_MAX_FX,
        ensures
            r@ == spec_tone_samples(frequency as int, waveform, duration as int),
            r@.len() == spec_total_samples(duration as int, SAMPLE_RATE as int),
            forall|i: int| 0 <= i < r@.len() ==> mag(#[trigger] r@[i] as int) <= HEADROOM_FX,
    {
        let mut oscillator = Oscillator::new(frequency, waveform, duration);
        let ghost osc0 = oscillator;
        let mut r: Vec<i64> = Vec::new();
        loop
            invariant
                oscillator.wf(),
                oscillator.spec_frequency() == frequency,
                oscillator.spec_waveform() == waveform,
                oscillator.spec_adsr() == osc0.spec_adsr(),
                osc0.spec_adsr() == crate::audio::spec_default_adsr(),
                oscillator.spec_total_duration() == duration,
                oscillator.spec_total_samples() == spec_total_samples(
                    duration as int,
                    SAMPLE_RATE as int,
                ),
                0 <= frequency <= FREQ_MAX_FX,
                0 <= duration <= DUR_MAX_FX,
                r@.len() == oscillator.spec_current_sample(),
                oscillator.spec_current_sample() <= oscillator.spec_total_samples(),
                forall|i: int| 0 <= i < r@.len() ==> #[trigger] r@[i] as int
                    == crate::audio::spec_oscillator_sample(
                    frequency as int,
                    waveform,
                    duration as int,
                    i,
                ),
                forall|i: int| 0 <= i < r@.len() ==> mag(#[trigger] r@[i] as int) <= HEADROOM_FX,
            decreases oscillator.spec_total_samples() - oscillator.spec_current_sample(),
        {
            let ghost pre = oscillator;
            match oscillator.next_sample() {
                Some(s) => {
                    proof {
                        pre.lemma_sample_formula(pre.spec_current_sample());
                    }
                    r.push(s);
                },
                None => {
                    proof {
                        assert(r@ =~= spec_tone_samples(
                            frequency as int,
                            waveform,
                            duration as int,
                        ));
                    }
                    return r;
                },
            }
        }
    }

    /// Generate audio samples from a melody: each note rendered at its
    /// frequency in the given octave, concatenated.  Every note of at
    /// least one millionth of a second contributes at least one sample.
    pub fn generate_melody_samples(&self, melody: &Melody, octave: i32, waveform: WaveForm) -> (r:
        Vec<i64>)
        requires
            self.wf(),
            0 <= octave <= 8,
            forall|i: int| 0 <= i < melody.notes@.len() ==> 0 <= (#[trigger] melody.notes@[i]).1
                <= DUR_MAX_FX,
        ensures
            r@ == spec_melody_samples(melody.notes@, octave as int, waveform),
            forall|i: int| 0 <= i < r@.len() ==> mag(#[trigger] r@[i] as int) <= HEADROOM_FX,
            (forall|i: int| 0 <= i < melody.notes@.len() ==> (#[trigger] melody.notes@[i]).1 >= 1)
                ==> r@.len() >= melody.notes@.len(),
    {
        let ghost notes = melody.notes@;
        let n = melody.notes.len();
        let mut r: Vec<i64> = Vec::new();
        let mut i: usize = 0;
        while i < n
            invariant
                self.wf(),
                0 <= i <= n,
                n == notes.len(),
                melody.notes@ == notes,
                0 <= octave <= 8,
                forall|j: int| 0 <= j < n ==> 0 <= (#[trigger] notes[j]).1 <= DUR_MAX_FX,
                r@ == spec_melody_samples(notes.take(i as int), octave as int, waveform),
                forall|j: int| 0 <= j < r@.len() ==> mag(#[trigger] r@[j] as int) <= HEADROOM_FX,
                (forall|j: int| 0 <= j < i ==> (#[trigger] notes[j]).1 >= 1) ==> r@.len() >= i,
            decreases n - i,
        {
            let (note, duration) = melody.notes[i];
            let frequency = note.frequency(octave);
            let tone = self.generate_tone(frequency, duration, waveform);
            let ghost r_before = r@;
            let mut k: usize = 0;
            let tn = tone.len();
            while k < tn
                invariant
                    0 <= k <= tn,
                    tn == tone@.len(),
                    r@ == r_before + tone@.take(k as int),
                decreases tn - k,
            {
                proof {
                    assert(r_before + tone@.take(k + 1 as int) =~= (r_before + tone@.take(
                        k as int,
                    )).push(tone@[k as int]));
                }
                r.push(tone[k]);
                k = k + 1;
            }
            proof {
                assert(tone@.take(tn as int) =~= tone@);
                assert(notes.take(i + 1 as int).drop_last() =~= notes.take(i as int));
                assert(notes.take(i + 1 as int).last() == notes[i as int]);
                assert(r@ =~= spec_melody_samples(notes.take(i + 1 as int), octave as int,
                    waveform));
                if duration >= 1 {
                    crate::audio::lemma_total_samples_pos(duration as int, SAMPLE_RATE as int);
                }
            }
            i = i + 1;
        }
        proof {
            assert(notes.take(n as int) =~= notes);
        }
        r
    }

    /// Combine multiple sample buffers into one, with an optional gap of
    /// silence (in fixed-point seconds) between consecutive buffers.
    pub fn combine_samples(&self, sample_arrays: &Vec<Vec<i64>>, gap_duration: i64) -> (r: Vec<
        i64,
    >)
        requires
            self.wf(),
            0 <= gap_duration <= DUR_MAX_FX,
        ensures
            r@ == spec_combined_samples(
                sample_arrays@,
                div_tz(gap_duration * (SAMPLE_RATE as int), FX_ONE as int),
            ),
    {
        proof {
            assert(0 <= gap_duration * (SAMPLE_RATE as int) <= 26_460_000_000_000int)
                by (nonlinear_arith)
                requires
                    0 <= gap_duration <= DUR_MAX_FX,
            ;
            crate::fixed::lemma_div_tz_mag((gap_duration * (SAMPLE_RATE as i64)) as int,
                FX_ONE as int);
            crate::fixed::lemma_div_le(
                (gap_duration * (SAMPLE_RATE as i64)) as int,
                26_460_000_000_000int,
                FX_ONE as int,
            );
            assert(26_460_000_000_000int / 1_000_000int == 26_460_000int) by {
                vstd::arithmetic::div_mod::lemma_fundamental_div_mod_converse(
                    26_460_000_000_000int,
                    1_000_000int,
                    26_460_000int,
                    0int,
                );
            }
        }
        let gap_samples_fx = fx_div(gap_duration * (SAMPLE_RATE as i64), FX_ONE);
        let gap_samples: usize = gap_samples_fx as usize;
        let ghost arrays = sample_arrays@;
        let ghost g = gap_samples as int;
        let n = sample_arrays.len();
        let mut r: Vec<i64> = Vec::new();
        let mut i: usize = 0;
        while i < n
            invariant
                0 <= i <= n,
                n == arrays.len(),
                sample_arrays@ == arrays,
                g == gap_samples as int,
                r@ == spec_combined_samples(arrays.take(i as int), g) + if 0 < i < n && g > 0 {
                    Seq::new(g as nat, |x: int| 0i64)
                } else {
                    Seq::empty()
                },
            decreases n - i,
        {
            let arr = &sample_arrays[i];
            let ghost r_before = r@;
            let mut k: usize = 0;
            let an = arr.len();
            while k < an
                invariant
                    0 <= k <= an,
                    an == arr@.len(),
                    arr@ == arrays[i as int]@,
                    r@ == r_before + arr@.take(k as int),
                decreases an - k,
            {
                proof {
                    assert(r_before + arr@.take(k + 1 as int) =~= (r_before + arr@.take(
                        k as int,
                    )).push(arr@[k as int]));
                }
                r.push(arr[k]);
                k = k + 1;
            }
            proof {
                assert(arr@.take(an as int) =~= arr@);
                assert(arrays.take(i + 1 as int).drop_last() =~= arrays.take(i as int));
                assert(r@ =~= spec_combined_samples(arrays.take(i + 1 as int), g));
            }
            i = i + 1;
            if i < n && gap_samples > 0 {
                let ghost r_mid = r@;
                let mut z: usize = 0;
                while z < gap_samples
                    invariant
                        0 <= z <= gap_samples,
                        r@ == r_mid + Seq::new(z as nat, |x: int| 0i64),
                    decreases gap_samples - z,
                {
                    proof {
                        assert(r_mid + Seq::new((z + 1) as nat, |x: int| 0i64) =~= (r_mid
                            + Seq::new(z as nat, |x: int| 0i64)).push(0i64));
                    }
                    r.push(0);
                    z = z + 1;
                }
            }
        }
        proof {
            assert(arrays.take(n as int) =~= arrays);
            if n > 0 {
                assert(r@ =~= spec_combined_samples(arrays, g));
            } else {
                assert(r@ =~= spec_combined_samples(arrays, g));
            }
        }
        r
    }

    /// Quantize fixed-point samples to 16-bit integers for container
    /// encoding: each sample in `[-1, 1]` scales to the signed 16-bit
    /// range.
    pub fn quantize_samples(&self, samples: &Vec<i64>) -> (r: Vec<i16>)
        requires
            forall|i: int| 0 <= i < samples@.len() ==> mag(#[trigger] samples@[i] as int)
                <= FX_ONE,
        ensures
            r@.len() == samples@.len(),
            forall|i: int| 0 <= i < r@.len() ==> #[trigger] r@[i] as int == div_tz(
                samples@[i] * 32767,
                FX_ONE as int,
            ),
    {
        let n = samples.len();
        let mut r: Vec<i16> = Vec::new();
        let mut i: usize = 0;
        while i < n
            invariant
                0 <= i <= n,
                n == samples@.len(),
                forall|j: int| 0 <= j < n ==> mag(#[trigger] samples@[j] as int) <= FX_ONE,
                r@.len() == i,
                forall|j: int| 0 <= j < i ==> #[trigger] r@[j] as int == div_tz(
                    samples@[j] * 32767,
                    FX_ONE as int,
                ),
            decreases n - i,
        {
            let v = samples[i];
            proof {
                crate::fixed::lemma_scale_mag(v as int, 32767, FX_ONE as int, FX_ONE as int);
                assert(mag(v * 32767) <= 32_767_000_000int) by (nonlinear_arith)
                    requires
                        mag(v as int) <= 1_000_000,
                ;
                crate::fixed::lemma_div_tz_mag((v * 32767) as int, FX_ONE as int);
                crate::fixed::lemma_div_le(mag((v * 32767) as int), 32_767_000_000int,
                    FX_ONE as int);
                assert(32_767_000_000int / 1_000_000int == 32_767int) by {
                    vstd::arithmetic::div_mod::lemma_fundamental_div_mod_converse(
                        32_767_000_000int,
                        1_000_000int,
                        32_767int,
                        0int,
                    );
                }
            }
            let q = fx_mul_div(v, 32767, FX_ONE);
            r.push(q as i16);
            i = i + 1;
        }
        r
    }

    /// Get a random variation factor for parameters, in `[0.6, 1.4]`.
    pub fn random_variation(&mut self) -> (r: i64)
        ensures
            600_000 <= r <= 1_400_000,
            final(self).spec_sample_rate() == old(self).spec_sample_rate(),
            final(self).spec_current_seed() == old(self).spec_current_seed(),
    {
        rng_gen_range(&mut self.rng, 600_000, 1_400_000)
    }

    /// Get a random pitch offset in fixed-point semitones, in `[-4, 4]`.
    pub fn random_pitch_offset(&mut self) -> (r: i64)
        ensures
            -4_000_000 <= r <= 4_000_000,
            final(self).spec_sample_rate() == old(self).spec_sample_rate(),
            final(self).spec_current_seed() == old(self).spec_current_seed(),
    {
        rng_gen_range(&mut self.rng, -4_000_000, 4_000_000)
    }

    /// Get a random rhythm variation factor, in `[0.5, 2.0]`.
    pub fn random_rhythm_variation(&mut self) -> (r: i64)
        ensures
            500_000 <= r <= 2_000_000,
            final(self).spec_sample_rate() == old(self).spec_sample_rate(),
            final(self).spec_current_seed() == old(self).spec_current_seed(),
    {
        rng_gen_range(&mut self.rng, 500_000, 2_000_000)
    }

    /// Get a random note count near the base count: the base shifted by up
    /// to two notes either way, clamped into `[2, 10]`.
    pub fn random_note_count_variation(&mut self, base_count: usize) -> (r: usize)
        requires
            base_count <= 1000,
        ensures
            2 <= r <= 10,
            exists|v: int| -2 <= v <= 2 && r == #[trigger] spec_clamp(base_count + v, 2, 10),
            final(self).spec_sample_rate() == old(self).spec_sample_rate(),
            final(self).spec_current_seed() == old(self).spec_current_seed(),
    {
        let variation = rng_gen_range(&mut self.rng, -2, 2);
        let shifted: i64 = (base_count as i64) + variation;
        let clamped = crate::fixed::fx_clamp(shifted, 2, 10);
        proof {
            assert(clamped == spec_clamp(base_count + variation as int, 2, 10));
        }
        clamped as usize
    }

    /// Choose a random scale from the available options.
    pub fn random_scale(&mut self) -> (r: Scale)
        ensures
            final(self).spec_sample_rate() == old(self).spec_sample_rate(),
            final(self).spec_current_seed() == old(self).spec_current_seed(),
    {
        let k = rng_gen_range(&mut self.rng, 0, 3);
        if k == 0 {
            Scale::Major
        } else if k == 1 {
            Scale::Minor
        } else if k == 2 {
            Scale::Pentatonic
        } else {
            Scale::Chromatic
        }
    }

    /// Choose a random melody pattern.
    pub fn random_melody_pattern(&mut self) -> (r: MelodyPattern)
        ensures
            final(self).spec_sample_rate() == old(self).spec_sample_rate(),
            final(self).spec_current_seed() == old(self).spec_current_seed(),
    {
        let k = rng_gen_range(&mut self.rng, 0, 4);
        if k == 0 {
            MelodyPattern::Ascending
        } else if k == 1 {
            MelodyPattern::Descending
        } else if k == 2 {
            MelodyPattern::Arpeggio
        } else if k == 3 {
            MelodyPattern::ScaleRun
        } else {
            MelodyPattern::Random
        }
    }

    /// Generate a random boolean that is true with the given fixed-point
    /// probability: certain at one, impossible at zero.
    pub fn random_bool(&mut self, probability: i64) -> (r: bool)
        requires
            0 <= probability <= FX_ONE,
        ensures
            probability == FX_ONE ==> r,
            probability == 0 ==> !r,
            final(self).spec_sample_rate() == old(self).spec_sample_rate(),
            final(self).spec_current_seed() == old(self).spec_current_seed(),
    {
        rng_gen_ratio(&mut self.rng, probability as u32, FX_ONE as u32)
    }

    /// Generate a random integer in the half-open range `[lo, hi)`.
    pub fn random_range(&mut self, lo: i32, hi: i32) -> (r: i32)
        requires
            lo < hi,
        ensures
            lo <= r < hi,
            final(self).spec_sample_rate() == old(self).spec_sample_rate(),
            final(self).spec_current_seed() == old(self).spec_current_seed(),
    {
        let v = rng_gen_range(&mut self.rng, lo as i64, (hi as i64) - 1);
        v as i32
    }

    /// Generate a random fixed-point value in the inclusive range
    /// `[lo, hi]`.
    pub fn random_float_range(&mut self, lo: i64, hi: i64) -> (r: i64)
        requires
            lo <= hi,
        ensures
            lo <= r <= hi,
            final(self).spec_sample_rate() == old(self).spec_sample_rate(),
            final(self).spec_current_seed() == old(self).spec_current_seed(),
    {
        rng_gen_range(&mut self.rng, lo, hi)
    }

    /// Choose a random waveform for variety.
    pub fn random_waveform(&mut self) -> (r: WaveForm)
        ensures
            final(self).spec_sample_rate() == old(self).spec_sample_rate(),
            final(self).spec_current_seed() == old(self).spec_current_seed(),
    {
        let k = rng_gen_range(&mut self.rng, 0, 3);
        if k == 0 {
            WaveForm::Sine
        } else if k == 1 {
            WaveForm::Triangle
        } else if k == 2 {
            WaveForm::Sawtooth
        } else {
            WaveForm::Square
        }
    }
}

impl Default for JingleGenerator {
    /// A generator with a seed drawn from the operating system.
    fn default() -> (r: JingleGenerator)
        ensures
            r.wf(),
            r.spec_current_seed() is None,
    {
        JingleGenerator::new()
    }
}

/// Buffers concatenated in order, with `gap` zero samples between
/// consecutive buffers.
pub open spec fn spec_combined_samples(arrays: Seq<Vec<i64>>, gap: int) -> Seq<i64>
    decreases arrays.len(),
{
    if arrays.len() == 0 {
        Seq::empty()
    } else if arrays.len() == 1 {
        arrays.last()@
    } else {
        spec_combined_samples(arrays.drop_last(), gap) + if gap > 0 {
            Seq::new(gap as nat, |x: int| 0i64)
        } else {
            Seq::empty()
        } + arrays.last()@
    }
}

} // verus!
