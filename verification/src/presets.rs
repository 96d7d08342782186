//! Pre-built jingle presets for common notification types: each preset
//! draws random variation for timing, pitch, scale, pattern and waveform,
//! builds a melody, and renders it into a sample buffer.  Every produced
//! sample stays within the oscillator headroom, and every preset yields at
//! least one sample.

use vstd::prelude::*;
use crate::fixed::{div_tz, mag, fx_div, fx_mul_div, FX_ONE};
use crate::audio::{WaveForm, HEADROOM_FX};
use crate::music::{Note, Scale, Melody, MelodyPattern, Chord, ChordProgression};
use crate::export::JingleGenerator;
use crate::pitch::pitch_ratio;

verus! {

/// Shortest preset duration accepted, in fixed-point seconds.
pub const PRESET_DUR_MIN: i64 = 10_000;

/// Longest preset duration accepted, in fixed-point seconds.
pub const PRESET_DUR_MAX: i64 = 10_000_000;

/// Lowest preset base frequency accepted, in millionths of a Hz.
pub const PRESET_FREQ_MIN: i64 = 1_000_000;

/// Highest preset base frequency accepted, in millionths of a Hz.
pub const PRESET_FREQ_MAX: i64 = 6_000_000_000;

/// A requested duration is either absent or within the preset range.
pub open spec fn spec_duration_ok(duration: Option<i64>) -> bool {
    match duration {
        Some(d) => PRESET_DUR_MIN <= d <= PRESET_DUR_MAX,
        None => true,
    }
}

/// A requested base frequency is either absent or within the preset range.
pub open spec fn spec_frequency_ok(frequency: Option<i64>) -> bool {
    match frequency {
        Some(f) => PRESET_FREQ_MIN <= f <= PRESET_FREQ_MAX,
        None => true,
    }
}

/// Scale a duration by a fixed-point factor in `[0.5, 2]`: the result
/// stays between half and twice the duration.
fn scaled_duration(d: i64, factor: i64) -> (r: i64)
    requires
        1 <= d <= 100_000_000,
        500_000 <= factor <= 2_000_000,
    ensures
        r == div_tz(d * factor, FX_ONE as int),
        d / 2 <= r <= 2 * d,
{
    proof {
        assert(d * 500_000 <= d * factor <= d * 2_000_000) by (nonlinear_arith)
            requires
                1 <= d,
                500_000 <= factor <= 2_000_000,
        ;
        crate::fixed::lemma_div_tz_mag((d * factor) as int, FX_ONE as int);
        crate::fixed::lemma_div_le(d * 500_000, (d * factor) as int, FX_ONE as int);
        crate::fixed::lemma_div_le((d * factor) as int, d * 2_000_000, FX_ONE as int);
        assert((d * 500_000) / (FX_ONE as int) == d as int / 2) by {
            vstd::arithmetic::div_mod::lemma_fundamental_div_mod(d as int, 2);
            vstd::arithmetic::div_mod::lemma_mod_bound(d as int, 2);
            let q = d as int / 2;
            let r0 = d as int % 2;
            assert(d * 500_000 == 1_000_000 * q + r0 * 500_000) by (nonlinear_arith)
                requires
                    d == 2 * q + r0,
            ;
            vstd::arithmetic::div_mod::lemma_fundamental_div_mod_converse(
                d * 500_000,
                1_000_000,
                q,
                r0 * 500_000,
            );
        }
        assert((d * 2_000_000) / (FX_ONE as int) == 2 * d) by {
            assert(d * 2_000_000 == 1_000_000 * (2 * d) + 0) by (nonlinear_arith);
            vstd::arithmetic::div_mod::lemma_fundamental_div_mod_converse(
                d * 2_000_000,
                1_000_000,
                2 * d,
                0,
            );
        }
    }
    fx_mul_div(d, factor, FX_ONE)
}

impl JingleGenerator {
    /// Draw a random pitch offset and apply it to a base frequency,
    /// returning the adjusted frequency and the nearest note to it.
    fn random_adjusted_root(&mut self, base_freq: i64) -> (r: (i64, Note))
        requires
            PRESET_FREQ_MIN <= base_freq <= PRESET_FREQ_MAX,
        ensures
            31_250 <= r.0 <= 12_000_000_000,
            final(self).spec_sample_rate() == old(self).spec_sample_rate(),
            final(self).spec_current_seed() == old(self).spec_current_seed(),
    {
        let pitch_offset = self.random_pitch_offset();
        let ratio = pitch_ratio(pitch_offset);
        proof {
            assert(base_freq * 31_250 <= base_freq * ratio <= base_freq * 2_000_000)
                by (nonlinear_arith)
                requires
                    1 <= base_freq,
                    31_250 <= ratio <= 2_000_000,
            ;
            assert(base_freq * 2_000_000 <= 12_000_000_000_000_000int) by (nonlinear_arith)
                requires
                    base_freq <= 6_000_000_000,
            ;
            assert(base_freq * 31_250 >= 31_250_000_000int) by (nonlinear_arith)
                requires
                    base_freq >= 1_000_000,
            ;
            crate::fixed::lemma_div_tz_mag((base_freq * ratio) as int, FX_ONE as int);
            crate::fixed::lemma_div_le(31_250_000_000int, (base_freq * ratio) as int,
                FX_ONE as int);
            crate::fixed::lemma_div_le((base_freq * ratio) as int, 12_000_000_000_000_000int,
                FX_ONE as int);
            assert(31_250_000_000int / 1_000_000int == 31_250int) by {
                vstd::arithmetic::div_mod::lemma_fundamental_div_mod_converse(
                    31_250_000_000int,
                    1_000_000int,
                    31_250int,
                    0int,
                );
            }
            assert(12_000_000_000_000_000int / 1_000_000int == 12_000_000_000int) by {
                vstd::arithmetic::div_mod::lemma_fundamental_div_mod_converse(
                    12_000_000_000_000_000int,
                    1_000_000int,
                    12_000_000_000int,
                    0int,
                );
            }
        }
        let adjusted = fx_mul_div(base_freq, ratio, FX_ONE);
        let note = Note::from_frequency(adjusted);
        (adjusted, note)
    }

    /// Pick a melody note duration for a preset: the requested (or
    /// default) total duration, randomly varied, split across the note
    /// count, with a random rhythm variation.
    fn preset_note_duration(&mut self, duration: Option<i64>, default: i64, note_count: usize)
        -> (r: i64)
        requires
            spec_duration_ok(duration),
            PRESET_DUR_MIN <= default <= PRESET_DUR_MAX,
            2 <= note_count <= 10,
        ensures
            250 <= r <= 40_000_000,
            final(self).spec_sample_rate() == old(self).spec_sample_rate(),
            final(self).spec_current_seed() == old(self).spec_current_seed(),
    {
        let base: i64 = match duration {
            Some(d) => d,
            None => default,
        };
        let variation = self.random_variation();
        let base_duration = scaled_duration(base, variation);
        let rhythm = self.random_rhythm_variation();
        let per_note = base_duration / (note_count as i64);
        proof {
            crate::fixed::lemma_div_tz_bounds(base_duration as int, note_count as int);
            vstd::arithmetic::div_mod::lemma_div_pos_is_pos(base_duration as int,
                note_count as int);
            assert(base_duration as int / (note_count as int) >= 500) by {
                vstd::arithmetic::div_mod::lemma_div_is_ordered_by_denominator(
                    base_duration as int,
                    note_count as int,
                    10,
                );
                crate::fixed::lemma_div_le(5_000int, base_duration as int, 10int);
                assert(5_000int / 10int == 500int) by {
                    vstd::arithmetic::div_mod::lemma_fundamental_div_mod_converse(
                        5_000int,
                        10int,
                        500int,
                        0int,
                    );
                }
            }
            assert(base_duration as int / (note_count as int) <= 10_000_000) by {
                vstd::arithmetic::div_mod::lemma_div_is_ordered_by_denominator(
                    base_duration as int,
                    2,
                    note_count as int,
                );
                crate::fixed::lemma_div_le(base_duration as int, 20_000_000int, 2int);
                assert(20_000_000int / 2int == 10_000_000int) by {
                    vstd::arithmetic::div_mod::lemma_fundamental_div_mod_converse(
                        20_000_000int,
                        2int,
                        10_000_000int,
                        0int,
                    );
                }
            }
        }
        scaled_duration(per_note, rhythm)
    }

    /// Create a pleasant notification sound with varied scales and
    /// patterns.
    pub fn create_notification_jingle(
        &mut self,
        waveform: WaveForm,
        duration: Option<i64>,
        base_frequency: Option<i64>,
    ) -> (r: Vec<i64>)
        requires
            old(self).wf(),
            spec_duration_ok(duration),
            spec_frequency_ok(base_frequency),
        ensures
            final(self).wf(),
            final(self).spec_current_seed() == old(self).spec_current_seed(),
            r@.len() >= 4,
            forall|i: int| 0 <= i < r@.len() ==> mag(#[trigger] r@[i] as int) <= HEADROOM_FX,
    {
        let note_count = self.random_note_count_variation(4);
        let note_duration = self.preset_note_duration(duration, 150_000, note_count);
        let base_freq: i64 = match base_frequency {
            Some(f) => f,
            None => Note::C.frequency(5),
        };
        let (_adjusted, root_note) = self.random_adjusted_root(base_freq);
        let scale = if self.random_bool(700_000) {
            Scale::Pentatonic
        } else {
            Scale::Major
        };
        let pattern = if self.random_bool(600_000) {
            MelodyPattern::Arpeggio
        } else {
            self.random_melody_pattern()
        };
        let used_waveform = if self.random_bool(300_000) {
            self.random_waveform()
        } else {
            waveform
        };
        let melody = Melody::from_scale(scale, root_note, 5, pattern, note_duration);
        proof {
            vstd::arithmetic::div_mod::lemma_div_pos_is_pos(note_duration as int, 2);
        }
        self.generate_melody_samples(&melody, 5, used_waveform)
    }

    /// Create an uplifting success sound with varied upward patterns.
    pub fn create_success_jingle(
        &mut self,
        waveform: WaveForm,
        duration: Option<i64>,
        base_frequency: Option<i64>,
    ) -> (r: Vec<i64>)
        requires
            old(self).wf(),
            spec_duration_ok(duration),
            spec_frequency_ok(base_frequency),
        ensures
            final(self).wf(),
            final(self).spec_current_seed() == old(self).spec_current_seed(),
            r@.len() >= 4,
            forall|i: int| 0 <= i < r@.len() ==> mag(#[trigger] r@[i] as int) <= HEADROOM_FX,
    {
        let note_count = self.random_note_count_variation(5);
        let note_duration = self.preset_note_duration(duration, 800_000, note_count);
        let base_freq: i64 = match base_frequency {
            Some(f) => f,
            None => Note::C.frequency(4),
        };
        let (_adjusted, root_note) = self.random_adjusted_root(base_freq);
        let scale = if self.random_bool(600_000) {
            Scale::Major
        } else {
            Scale::Pentatonic
        };
        let pattern = if self.random_bool(700_000) {
            MelodyPattern::Ascending
        } else {
            MelodyPattern::Arpeggio
        };
        let used_waveform = if self.random_bool(400_000) {
            self.random_waveform()
        } else {
            waveform
        };
        let melody = Melody::from_scale(scale, root_note, 4, pattern, note_duration);
        proof {
            vstd::arithmetic::div_mod::lemma_div_pos_is_pos(note_duration as int, 2);
        }
        self.generate_melody_samples(&melody, 4, used_waveform)
    }

    /// Create an attention-grabbing alert: a short burst of beeps with
    /// slight frequency variation and gaps of silence between them.
    pub fn create_alert_jingle(
        &mut self,
        waveform: WaveForm,
        duration: Option<i64>,
        base_frequency: Option<i64>,
    ) -> (r: Vec<i64>)
        requires
            old(self).wf(),
            spec_duration_ok(duration),
            spec_frequency_ok(base_frequency),
        ensures
            final(self).wf(),
            final(self).spec_current_seed() == old(self).spec_current_seed(),
            r@.len() >= 1,
            forall|i: int| 0 <= i < r@.len() ==> mag(#[trigger] r@[i] as int) <= HEADROOM_FX,
    {
        let base: i64 = match duration {
            Some(d) => d,
            None => 250_000,
        };
        let variation = self.random_variation();
        let total_duration = scaled_duration(base, variation);
        let drawn = self.random_note_count_variation(2);
        let beep_count: usize = if drawn < 2 {
            2
        } else if drawn > 4 {
            4
        } else {
            drawn
        };
        // One beep lasts the total duration split over one-and-a-half
        // slots per beep.
        let slot = total_duration * 2 / ((beep_count as i64) * 3);
        proof {
            crate::fixed::lemma_div_tz_bounds((total_duration * 2) as int, (beep_count * 3) as int);
            vstd::arithmetic::div_mod::lemma_div_pos_is_pos(
                (total_duration * 2) as int,
                (beep_count * 3) as int,
            );
            assert((total_duration * 2) as int / ((beep_count * 3) as int) >= 833) by {
                vstd::arithmetic::div_mod::lemma_div_is_ordered_by_denominator(
                    (total_duration * 2) as int,
                    (beep_count * 3) as int,
                    12,
                );
                crate::fixed::lemma_div_le(10_000int, (total_duration * 2) as int, 12int);
                assert(10_000int / 12int == 833int) by {
                    vstd::arithmetic::div_mod::lemma_fundamental_div_mod_converse(
                        10_000int,
                        12int,
                        833int,
                        4int,
                    );
                }
            }
        }
        let rhythm = self.random_rhythm_variation();
        let beep_duration = scaled_duration(slot, rhythm);
        let gap_factor = self.random_float_range(300_000, 800_000);
        proof {
            assert(0 <= beep_duration * gap_factor <= 80_000_000 * 800_000int)
                by (nonlinear_arith)
                requires
                    0 <= beep_duration <= 80_000_000,
                    0 < gap_factor <= 800_000,
            ;
            crate::fixed::lemma_scale_mag(beep_duration as int, gap_factor as int,
                beep_duration as int, FX_ONE as int);
            crate::fixed::lemma_div_tz_mag((beep_duration * gap_factor) as int, FX_ONE as int);
        }
        let gap_duration = fx_mul_div(beep_duration, gap_factor, FX_ONE);
        let base_freq: i64 = match base_frequency {
            Some(f) => f,
            None => Note::G.frequency(6),
        };
        let (frequency, _root) = self.random_adjusted_root(base_freq);
        let used_waveform = if self.random_bool(300_000) {
            if self.random_range(0, 2) == 0 {
                WaveForm::Square
            } else {
                WaveForm::Sawtooth
            }
        } else {
            waveform
        };
        let gap_samples_fx = fx_div(gap_duration * (crate::SAMPLE_RATE as i64), FX_ONE);
        proof {
            assert(0 <= gap_duration * (crate::SAMPLE_RATE as int) <= 3_528_000_000_000int)
                by (nonlinear_arith)
                requires
                    0 <= gap_duration <= 80_000_000,
            ;
            crate::fixed::lemma_div_tz_mag((gap_duration * (crate::SAMPLE_RATE as i64)) as int,
                FX_ONE as int);
            crate::fixed::lemma_div_le(
                (gap_duration * (crate::SAMPLE_RATE as i64)) as int,
                3_528_000_000_000int,
                FX_ONE as int,
            );
            assert(3_528_000_000_000int / 1_000_000int == 3_528_000int) by {
                vstd::arithmetic::div_mod::lemma_fundamental_div_mod_converse(
                    3_528_000_000_000int,
                    1_000_000int,
                    3_528_000int,
                    0int,
                );
            }
        }
        let gap_samples: usize = gap_samples_fx as usize;
        let mut samples: Vec<i64> = Vec::new();
        let mut i: usize = 0;
        while i < beep_count
            invariant
                0 <= i <= beep_count,
                2 <= beep_count <= 4,
                self.wf(),
                self.spec_current_seed() == old(self).spec_current_seed(),
                31_250 <= frequency <= 12_000_000_000,
                416 <= beep_duration <= 160_000_000,
                i >= 1 ==> samples@.len() >= 1,
                forall|j: int| 0 <= j < samples@.len() ==> mag(#[trigger] samples@[j] as int)
                    <= HEADROOM_FX,
            decreases beep_count - i,
        {
            let freq_variation: i64 = if i > 0 {
                self.random_float_range(950_000, 1_050_000)
            } else {
                FX_ONE
            };
            proof {
                assert(frequency * freq_variation <= 12_000_000_000 * 1_050_000int)
                    by (nonlinear_arith)
                    requires
                        0 < frequency <= 12_000_000_000,
                        0 < freq_variation <= 1_050_000,
                ;
                assert(frequency * freq_variation >= 0) by (nonlinear_arith)
                    requires
                        0 < frequency,
                        0 < freq_variation,
                ;
                crate::fixed::lemma_div_tz_mag((frequency * freq_variation) as int,
                    FX_ONE as int);
                crate::fixed::lemma_div_le(
                    (frequency * freq_variation) as int,
                    12_000_000_000 * 1_050_000int,
                    FX_ONE as int,
                );
                assert(12_600_000_000_000_000int / 1_000_000int == 12_600_000_000int) by {
                    vstd::arithmetic::div_mod::lemma_fundamental_div_mod_converse(
                        12_600_000_000_000_000int,
                        1_000_000int,
                        12_600_000_000int,
                        0int,
                    );
                }
            }
            let varied_freq = fx_mul_div(frequency, freq_variation, FX_ONE);
            let beep = self.generate_tone(varied_freq, beep_duration, used_waveform);
            proof {
                crate::audio::lemma_total_samples_pos(beep_duration as int,
                    crate::SAMPLE_RATE as int);
            }
            let mut k: usize = 0;
            let bn = beep.len();
            while k < bn
                invariant
                    0 <= k <= bn,
                    bn == beep@.len(),
                    samples@.len() >= k,
                    forall|j: int| 0 <= j < bn ==> mag(#[trigger] beep@[j] as int) <= HEADROOM_FX,
                    forall|j: int| 0 <= j < samples@.len() ==> mag(
                        #[trigger] samples@[j] as int,
                    ) <= HEADROOM_FX,
                decreases bn - k,
            {
                samples.push(beep[k]);
                k = k + 1;
            }
            if i < beep_count - 1 {
                let mut z: usize = 0;
                while z < gap_samples
                    invariant
                        0 <= z <= gap_samples,
                        samples@.len() >= 1,
                        forall|j: int| 0 <= j < samples@.len() ==> mag(
                            #[trigger] samples@[j] as int,
                        ) <= HEADROOM_FX,
                    decreases gap_samples - z,
                {
                    samples.push(0);
                    z = z + 1;
                }
            }
            i = i + 1;
        }
        samples
    }

    /// Create an error/warning sound with varied minor patterns and
    /// dissonance.
    pub fn create_error_jingle(
        &mut self,
        waveform: WaveForm,
        duration: Option<i64>,
        base_frequency: Option<i64>,
    ) -> (r: Vec<i64>)
        requires
            old(self).wf(),
            spec_duration_ok(duration),
            spec_frequency_ok(base_frequency),
        ensures
            final(self).wf(),
            final(self).spec_current_seed() == old(self).spec_current_seed(),
            r@.len() >= 4,
            forall|i: int| 0 <= i < r@.len() ==> mag(#[trigger] r@[i] as int) <= HEADROOM_FX,
    {
        let note_count = self.random_note_count_variation(5);
        let note_duration = self.preset_note_duration(duration, 1_250_000, note_count);
        let base_freq: i64 = match base_frequency {
            Some(f) => f,
            None => Note::D.frequency(5),
        };
        let (_adjusted, root_note) = self.random_adjusted_root(base_freq);
        let scale = if self.random_bool(700_000) {
            Scale::Minor
        } else {
            Scale::Chromatic
        };
        let pattern = if self.random_bool(500_000) {
            MelodyPattern::Descending
        } else {
            MelodyPattern::Random
        };
        let used_waveform = if self.random_bool(400_000) {
            let k = self.random_range(0, 3);
            if k == 0 {
                WaveForm::Sawtooth
            } else if k == 1 {
                WaveForm::Square
            } else {
                waveform
            }
        } else {
            waveform
        };
        let melody = Melody::from_scale(scale, root_note, 5, pattern, note_duration);
        proof {
            vstd::arithmetic::div_mod::lemma_div_pos_is_pos(note_duration as int, 2);
        }
        self.generate_melody_samples(&melody, 5, used_waveform)
    }

    /// Create a startup chime with varied chord progressions and patterns.
    pub fn create_startup_jingle(
        &mut self,
        waveform: WaveForm,
        duration: Option<i64>,
        base_frequency: Option<i64>,
    ) -> (r: Vec<i64>)
        requires
            old(self).wf(),
            spec_duration_ok(duration),
            spec_frequency_ok(base_frequency),
        ensures
            final(self).wf(),
            final(self).spec_current_seed() == old(self).spec_current_seed(),
            r@.len() >= 1,
            forall|i: int| 0 <= i < r@.len() ==> mag(#[trigger] r@[i] as int) <= HEADROOM_FX,
    {
        let drawn = self.random_note_count_variation(2);
        let chord_count: usize = if drawn < 2 {
            2
        } else if drawn > 4 {
            4
        } else {
            drawn
        };
        let chord_duration = self.preset_note_duration(duration, 600_000, chord_count);
        let base_freq: i64 = match base_frequency {
            Some(f) => f,
            None => Note::C.frequency(4),
        };
        let (_adjusted, root_note) = self.random_adjusted_root(base_freq);
        let progression = {
            let k = self.random_range(0, 3);
            if k == 0 {
                ChordProgression::Pop
            } else if k == 1 {
                ChordProgression::Classical
            } else {
                ChordProgression::Jazz
            }
        };
        let chord_progression = progression.get_chords(root_note);
        let pattern = if self.random_bool(700_000) {
            MelodyPattern::Arpeggio
        } else {
            MelodyPattern::Ascending
        };
        let used_waveform = if self.random_bool(300_000) {
            self.random_waveform()
        } else {
            waveform
        };
        let take = if chord_count < chord_progression.len() {
            chord_count
        } else {
            chord_progression.len()
        };
        let mut chord_samples: Vec<i64> = Vec::new();
        let mut i: usize = 0;
        while i < take
            invariant
                0 <= i <= take,
                1 <= take <= chord_progression@.len(),
                self.wf(),
                self.spec_current_seed() == old(self).spec_current_seed(),
                250 <= chord_duration <= 40_000_000,
                forall|c: int| 0 <= c < chord_progression@.len() ==> (
                #[trigger] chord_progression@[c]).intervals@.len() >= 1,
                forall|c: int, v: int|
                    0 <= c < chord_progression@.len() && 0 <= v
                        < chord_progression@[c].intervals@.len() ==> 0 <= #[trigger] chord_progression@[
                        c
                    ].intervals@[v] <= 1000,
                i >= 1 ==> chord_samples@.len() >= 1,
                forall|j: int| 0 <= j < chord_samples@.len() ==> mag(
                    #[trigger] chord_samples@[j] as int,
                ) <= HEADROOM_FX,
            decreases take - i,
        {
            let chord = &chord_progression[i];
            let chord_melody = Melody::from_chord(chord, 4, pattern, chord_duration);
            let part = self.generate_melody_samples(&chord_melody, 4, used_waveform);
            let mut k: usize = 0;
            let pn = part.len();
            proof {
                crate::audio::lemma_total_samples_pos(chord_duration as int,
                    crate::SAMPLE_RATE as int);
            }
            while k < pn
                invariant
                    0 <= k <= pn,
                    pn == part@.len(),
                    chord_samples@.len() >= k,
                    forall|j: int| 0 <= j < pn ==> mag(#[trigger] part@[j] as int) <= HEADROOM_FX,
                    forall|j: int| 0 <= j < chord_samples@.len() ==> mag(
                        #[trigger] chord_samples@[j] as int,
                    ) <= HEADROOM_FX,
                decreases pn - k,
            {
                chord_samples.push(part[k]);
                k = k + 1;
            }
            i = i + 1;
        }
        chord_samples
    }

    /// Create a shutdown sound with varied gentle descending patterns.
    pub fn create_shutdown_jingle(
        &mut self,
        waveform: WaveForm,
        duration: Option<i64>,
        base_frequency: Option<i64>,
    ) -> (r: Vec<i64>)
        requires
            old(self).wf(),
            spec_duration_ok(duration),
            spec_frequency_ok(base_frequency),
        ensures
            final(self).wf(),
            final(self).spec_current_seed() == old(self).spec_current_seed(),
            r@.len() >= 4,
            forall|i: int| 0 <= i < r@.len() ==> mag(#[trigger] r@[i] as int) <= HEADROOM_FX,
    {
        let note_count = self.random_note_count_variation(4);
        let note_duration = self.preset_note_duration(duration, 1_600_000, note_count);
        let base_freq: i64 = match base_frequency {
            Some(f) => f,
            None => Note::G.frequency(4),
        };
        let (_adjusted, root_note) = self.random_adjusted_root(base_freq);
        let scale = if self.random_bool(600_000) {
            Scale::Pentatonic
        } else {
            Scale::Major
        };
        let pattern = if self.random_bool(800_000) {
            MelodyPattern::Descending
        } else {
            MelodyPattern::ScaleRun
        };
        let used_waveform = if self.random_bool(200_000) {
            if self.random_range(0, 2) == 0 {
                WaveForm::Sine
            } else {
                WaveForm::Triangle
            }
        } else {
            waveform
        };
        let melody = Melody::from_scale(scale, root_note, 4, pattern, note_duration);
        proof {
            vstd::arithmetic::div_mod::lemma_div_pos_is_pos(note_duration as int, 2);
        }
        self.generate_melody_samples(&melody, 4, used_waveform)
    }

    /// Create a message received sound: either a two-note interval or a
    /// short three-note arpeggio.
    pub fn create_message_jingle(
        &mut self,
        waveform: WaveForm,
        duration: Option<i64>,
        base_frequency: Option<i64>,
    ) -> (r: Vec<i64>)
        requires
            old(self).wf(),
            spec_duration_ok(duration),
            spec_frequency_ok(base_frequency),
        ensures
            final(self).wf(),
            final(self).spec_current_seed() == old(self).spec_current_seed(),
            r@.len() >= 1,
            forall|i: int| 0 <= i < r@.len() ==> mag(#[trigger] r@[i] as int) <= HEADROOM_FX,
    {
        let base: i64 = match duration {
            Some(d) => d,
            None => 250_000,
        };
        let variation = self.random_variation();
        let total_duration = scaled_duration(base, variation);
        let drawn = self.random_note_count_variation(2);
        let note_count: usize = if drawn < 2 {
            2
        } else if drawn > 3 {
            3
        } else {
            drawn
        };
        let base_freq: i64 = match base_frequency {
            Some(f) => f,
            None => Note::C.frequency(5),
        };
        let (adjusted_base_freq, root_note) = self.random_adjusted_root(base_freq);
        let used_waveform = if self.random_bool(300_000) {
            self.random_waveform()
        } else {
            waveform
        };
        if note_count == 2 {
            let rhythm_var = self.random_rhythm_variation();
            let part1 = fx_mul_div(total_duration, 400_000, FX_ONE);
            let part2 = fx_mul_div(total_duration, 600_000, FX_ONE);
            proof {
                crate::fixed::lemma_scale_mag(total_duration as int, 400_000,
                    total_duration as int, FX_ONE as int);
                crate::fixed::lemma_scale_mag(total_duration as int, 600_000,
                    total_duration as int, FX_ONE as int);
                crate::fixed::lemma_div_tz_mag((total_duration * 400_000) as int, FX_ONE as int);
                crate::fixed::lemma_div_tz_mag((total_duration * 600_000) as int, FX_ONE as int);
                assert(total_duration * 400_000 >= 5_000 * 400_000int) by (nonlinear_arith)
                    requires
                        total_duration >= 5_000,
                ;
                assert(total_duration * 600_000 >= 5_000 * 600_000int) by (nonlinear_arith)
                    requires
                        total_duration >= 5_000,
                ;
                crate::fixed::lemma_div_le(5_000 * 400_000int, (total_duration * 400_000) as int,
                    FX_ONE as int);
                crate::fixed::lemma_div_le(5_000 * 600_000int, (total_duration * 600_000) as int,
                    FX_ONE as int);
                assert(2_000_000_000int / 1_000_000int == 2_000int) by {
                    vstd::arithmetic::div_mod::lemma_fundamental_div_mod_converse(
                        2_000_000_000int,
                        1_000_000int,
                        2_000int,
                        0int,
                    );
                }
                assert(3_000_000_000int / 1_000_000int == 3_000int) by {
                    vstd::arithmetic::div_mod::lemma_fundamental_div_mod_converse(
                        3_000_000_000int,
                        1_000_000int,
                        3_000int,
                        0int,
                    );
                }
            }
            let note1_duration = scaled_duration(part1, rhythm_var);
            let note2_duration = scaled_duration(part2, rhythm_var);
            let interval_semitones: i64 = {
                let k = self.random_range(0, 4);
                if k == 0 {
                    4
                } else if k == 1 {
                    5
                } else if k == 2 {
                    7
                } else {
                    3
                }
            };
            let ratio = crate::pitch::ratio_of_semitones(interval_semitones);
            proof {
                crate::pitch::lemma_ratio_of_semitones_bounds(interval_semitones as int);
                assert(adjusted_base_freq * ratio <= 12_000_000_000 * 1_500_000int)
                    by (nonlinear_arith)
                    requires
                        0 < adjusted_base_freq <= 12_000_000_000,
                        0 < ratio <= 1_500_000,
                ;
                assert(adjusted_base_freq * ratio >= 0) by (nonlinear_arith)
                    requires
                        0 < adjusted_base_freq,
                        0 < ratio,
                ;
                crate::fixed::lemma_div_tz_mag((adjusted_base_freq * ratio) as int,
                    FX_ONE as int);
                crate::fixed::lemma_div_le(
                    (adjusted_base_freq * ratio) as int,
                    18_000_000_000_000_000int,
                    FX_ONE as int,
                );
                assert(18_000_000_000_000_000int / 1_000_000int == 18_000_000_000int) by {
                    vstd::arithmetic::div_mod::lemma_fundamental_div_mod_converse(
                        18_000_000_000_000_000int,
                        1_000_000int,
                        18_000_000_000int,
                        0int,
                    );
                }
            }
            let note2_freq = fx_mul_div(adjusted_base_freq, ratio, FX_ONE);
            let note1_samples = self.generate_tone(adjusted_base_freq, note1_duration,
                used_waveform);
            let note2_samples = self.generate_tone(note2_freq, note2_duration, used_waveform);
            proof {
                crate::audio::lemma_total_samples_pos(note1_duration as int,
                    crate::SAMPLE_RATE as int);
            }
            let mut samples: Vec<i64> = Vec::new();
            let mut k: usize = 0;
            let n1 = note1_samples.len();
            while k < n1
                invariant
                    0 <= k <= n1,
                    n1 == note1_samples@.len(),
                    samples@.len() == k,
                    forall|j: int| 0 <= j < n1 ==> mag(#[trigger] note1_samples@[j] as int)
                        <= HEADROOM_FX,
                    forall|j: int| 0 <= j < samples@.len() ==> mag(
                        #[trigger] samples@[j] as int,
                    ) <= HEADROOM_FX,
                decreases n1 - k,
            {
                samples.push(note1_samples[k]);
                k = k + 1;
            }
            let mut z: usize = 0;
            let n2 = note2_samples.len();
            while z < n2
                invariant
                    0 <= z <= n2,
                    n2 == note2_samples@.len(),
                    samples@.len() >= 1,
                    forall|j: int| 0 <= j < n2 ==> mag(#[trigger] note2_samples@[j] as int)
                        <= HEADROOM_FX,
                    forall|j: int| 0 <= j < samples@.len() ==> mag(
                        #[trigger] samples@[j] as int,
                    ) <= HEADROOM_FX,
                decreases n2 - z,
            {
                samples.push(note2_samples[z]);
                z = z + 1;
            }
            samples
        } else {
            let note_duration = total_duration / 3;
            proof {
                vstd::arithmetic::div_mod::lemma_div_pos_is_pos(total_duration as int, 3);
                crate::fixed::lemma_div_le(3int, total_duration as int, 3int);
                vstd::arithmetic::div_mod::lemma_div_by_self(3);
                vstd::arithmetic::div_mod::lemma_div_nonincreasing(total_duration as int, 3);
            }
            let chord = Chord::major(root_note);
            let melody = Melody::from_chord(&chord, 5, MelodyPattern::Arpeggio, note_duration);
            self.generate_melody_samples(&melody, 5, used_waveform)
        }
    }

    /// Create a completion/done sound with varied satisfying resolutions.
    pub fn create_completion_jingle(
        &mut self,
        waveform: WaveForm,
        duration: Option<i64>,
        base_frequency: Option<i64>,
    ) -> (r: Vec<i64>)
        requires
            old(self).wf(),
            spec_duration_ok(duration),
            spec_frequency_ok(base_frequency),
        ensures
            final(self).wf(),
            final(self).spec_current_seed() == old(self).spec_current_seed(),
            r@.len() >= 1,
            forall|i: int| 0 <= i < r@.len() ==> mag(#[trigger] r@[i] as int) <= HEADROOM_FX,
    {
        let drawn = self.random_note_count_variation(2);
        let chord_count: usize = if drawn < 2 {
            2
        } else if drawn > 3 {
            3
        } else {
            drawn
        };
        let chord_duration = self.preset_note_duration(duration, 500_000, chord_count);
        let base_freq: i64 = match base_frequency {
            Some(f) => f,
            None => Note::C.frequency(4),
        };
        let (_adjusted, root_note) = self.random_adjusted_root(base_freq);
        let used_waveform = if self.random_bool(300_000) {
            self.random_waveform()
        } else {
            waveform
        };
        if chord_count == 2 {
            // A cadence from the fifth back to the root.
            let root_freq = root_note.frequency(4);
            proof {
                assert(0 <= root_freq * 3 <= 42_240_000_000int);
                crate::fixed::lemma_div_tz_bounds((root_freq * 3) as int, 2int);
                vstd::arithmetic::div_mod::lemma_div_pos_is_pos((root_freq * 3) as int, 2int);
                crate::fixed::lemma_div_le(2int, (root_freq * 3) as int, 2int);
                vstd::arithmetic::div_mod::lemma_div_by_self(2);
            }
            let fifth_freq = fx_div(root_freq * 3, 2);
            let fifth_note = Note::from_frequency(fifth_freq);
            let first_chord = if self.random_bool(700_000) {
                Chord::major(fifth_note)
            } else {
                Chord::dominant7(fifth_note)
            };
            let final_chord = Chord::major(root_note);
            let pattern = if self.random_bool(800_000) {
                MelodyPattern::Arpeggio
            } else {
                MelodyPattern::Ascending
            };
            let first_duration = fx_mul_div(chord_duration, 800_000, FX_ONE);
            let final_duration = fx_mul_div(chord_duration, 1_200_000, FX_ONE);
            proof {
                crate::fixed::lemma_scale_mag(chord_duration as int, 800_000,
                    chord_duration as int, FX_ONE as int);
                crate::fixed::lemma_div_tz_mag((chord_duration * 800_000) as int, FX_ONE as int);
                assert(0 <= chord_duration * 1_200_000 <= 48_000_000_000_000int)
                    by (nonlinear_arith)
                    requires
                        0 <= chord_duration <= 40_000_000,
                ;
                crate::fixed::lemma_div_tz_mag((chord_duration * 1_200_000) as int,
                    FX_ONE as int);
                crate::fixed::lemma_div_le(
                    (chord_duration * 1_200_000) as int,
                    48_000_000_000_000int,
                    FX_ONE as int,
                );
                assert(48_000_000_000_000int / 1_000_000int == 48_000_000int) by {
                    vstd::arithmetic::div_mod::lemma_fundamental_div_mod_converse(
                        48_000_000_000_000int,
                        1_000_000int,
                        48_000_000int,
                        0int,
                    );
                }
                assert(chord_duration * 800_000 >= 250 * 800_000int) by (nonlinear_arith)
                    requires
                        chord_duration >= 250,
                ;
                crate::fixed::lemma_div_le(250 * 800_000int, (chord_duration * 800_000) as int,
                    FX_ONE as int);
                assert(200_000_000int / 1_000_000int == 200int) by {
                    vstd::arithmetic::div_mod::lemma_fundamental_div_mod_converse(
                        200_000_000int,
                        1_000_000int,
                        200int,
                        0int,
                    );
                }
                assert(chord_duration * 1_200_000 >= 250 * 1_200_000int) by (nonlinear_arith)
                    requires
                        chord_duration >= 250,
                ;
                crate::fixed::lemma_div_le(250 * 1_200_000int, (chord_duration * 1_200_000) as int,
                    FX_ONE as int);
                assert(300_000_000int / 1_000_000int == 300int) by {
                    vstd::arithmetic::div_mod::lemma_fundamental_div_mod_converse(
                        300_000_000int,
                        1_000_000int,
                        300int,
                        0int,
                    );
                }
            }
            let first_melody = Melody::from_chord(&first_chord, 4, pattern, first_duration);
            let final_melody = Melody::from_chord(&final_chord, 4, pattern, final_duration);
            let first_samples = self.generate_melody_samples(&first_melody, 4, used_waveform);
            let final_samples = self.generate_melody_samples(&final_melody, 4, used_waveform);
            let mut samples: Vec<i64> = Vec::new();
            let mut k: usize = 0;
            let n1 = first_samples.len();
            proof {
                crate::audio::lemma_total_samples_pos(first_duration as int,
                    crate::SAMPLE_RATE as int);
            }
            while k < n1
                invariant
                    0 <= k <= n1,
                    n1 == first_samples@.len(),
                    samples@.len() == k,
                    forall|j: int| 0 <= j < n1 ==> mag(#[trigger] first_samples@[j] as int)
                        <= HEADROOM_FX,
                    forall|j: int| 0 <= j < samples@.len() ==> mag(
                        #[trigger] samples@[j] as int,
                    ) <= HEADROOM_FX,
                decreases n1 - k,
            {
                samples.push(first_samples[k]);
                k = k + 1;
            }
            let mut z: usize = 0;
            let n2 = final_samples.len();
            while z < n2
                invariant
                    0 <= z <= n2,
                    n2 == final_samples@.len(),
                    samples@.len() >= 1,
                    forall|j: int| 0 <= j < n2 ==> mag(#[trigger] final_samples@[j] as int)
                        <= HEADROOM_FX,
                    forall|j: int| 0 <= j < samples@.len() ==> mag(
                        #[trigger] samples@[j] as int,
                    ) <= HEADROOM_FX,
                decreases n2 - z,
            {
                samples.push(final_samples[z]);
                z = z + 1;
            }
            samples
        } else {
            let progression = if self.random_bool(500_000) {
                ChordProgression::Jazz
            } else {
                ChordProgression::Classical
            };
            let chords = progression.get_chords(root_note);
            let pattern = if self.random_bool(700_000) {
                MelodyPattern::Arpeggio
            } else {
                MelodyPattern::Ascending
            };
            let take = if chords.len() < 3 {
                chords.len()
            } else {
                3
            };
            let mut samples: Vec<i64> = Vec::new();
            let mut i: usize = 0;
            while i < take
                invariant
                    0 <= i <= take,
                    1 <= take <= chords@.len(),
                    self.wf(),
                    self.spec_current_seed() == old(self).spec_current_seed(),
                    250 <= chord_duration <= 40_000_000,
                    forall|c: int| 0 <= c < chords@.len() ==> (
                    #[trigger] chords@[c]).intervals@.len() >= 1,
                    forall|c: int, v: int|
                        0 <= c < chords@.len() && 0 <= v < chords@[c].intervals@.len() ==> 0
                            <= #[trigger] chords@[c].intervals@[v] <= 1000,
                    i >= 1 ==> samples@.len() >= 1,
                    forall|j: int| 0 <= j < samples@.len() ==> mag(
                        #[trigger] samples@[j] as int,
                    ) <= HEADROOM_FX,
                decreases take - i,
            {
                let chord = &chords[i];
                let melody = Melody::from_chord(chord, 4, pattern, chord_duration);
                let part = self.generate_melody_samples(&melody, 4, used_waveform);
                proof {
                    crate::audio::lemma_total_samples_pos(chord_duration as int,
                        crate::SAMPLE_RATE as int);
                }
                let mut k: usize = 0;
                let pn = part.len();
                while k < pn
                    invariant
                        0 <= k <= pn,
                        pn == part@.len(),
                        samples@.len() >= k,
                        forall|j: int| 0 <= j < pn ==> mag(#[trigger] part@[j] as int)
                            <= HEADROOM_FX,
                        forall|j: int| 0 <= j < samples@.len() ==> mag(
                            #[trigger] samples@[j] as int,
                        ) <= HEADROOM_FX,
                    decreases pn - k,
                {
                    samples.push(part[k]);
                    k = k + 1;
                }
                i = i + 1;
            }
            samples
        }
    }
}

/// Preset jingle types available in the library.
#[derive(Clone, Copy, Debug, PartialEq, Eq, Structural)]
pub enum JinglePreset {
    Notification,
    Success,
    Alert,
    Error,
    Startup,
    Shutdown,
    Message,
    Completion,
}

impl JinglePreset {
    /// Generate samples for this preset using the specified waveform.
    pub fn generate(&self, generator: &mut JingleGenerator, waveform: WaveForm) -> (r: Vec<i64>)
        requires
            old(generator).wf(),
        ensures
            final(generator).wf(),
            final(generator).spec_current_seed() == old(generator).spec_current_seed(),
            r@.len() >= 1,
            forall|i: int| 0 <= i < r@.len() ==> mag(#[trigger] r@[i] as int) <= HEADROOM_FX,
    {
        self.generate_with_params(generator, waveform, None, None)
    }

    /// Generate samples for this preset with optional duration and
    /// frequency parameters.
    pub fn generate_with_params(
        &self,
        generator: &mut JingleGenerator,
        waveform: WaveForm,
        duration: Option<i64>,
        frequency: Option<i64>,
    ) -> (r: Vec<i64>)
        requires
            old(generator).wf(),
            spec_duration_ok(duration),
            spec_frequency_ok(frequency),
        ensures
            final(generator).wf(),
            final(generator).spec_current_seed() == old(generator).spec_current_seed(),
            r@.len() >= 1,
            forall|i: int| 0 <= i < r@.len() ==> mag(#[trigger] r@[i] as int) <= HEADROOM_FX,
    {
        match self {
            JinglePreset::Notification => generator.create_notification_jingle(
                waveform,
                duration,
                frequency,
            ),
            JinglePreset::Success => generator.create_success_jingle(waveform, duration, frequency),
            JinglePreset::Alert => generator.create_alert_jingle(waveform, duration, frequency),
            JinglePreset::Error => generator.create_error_jingle(waveform, duration, frequency),
            JinglePreset::Startup => generator.create_startup_jingle(waveform, duration, frequency),
            JinglePreset::Shutdown => generator.create_shutdown_jingle(
                waveform,
                duration,
                frequency,
            ),
            JinglePreset::Message => generator.create_message_jingle(waveform, duration, frequency),
            JinglePreset::Completion => generator.create_completion_jingle(
                waveform,
                duration,
                frequency,
            ),
        }
    }

    /// Get all available presets.
    pub fn all() -> (r: Vec<JinglePreset>)
        ensures
            r@ =~= seq![
                JinglePreset::Notification,
                JinglePreset::Success,
                JinglePreset::Alert,
                JinglePreset::Error,
                JinglePreset::Startup,
                JinglePreset::Shutdown,
                JinglePreset::Message,
                JinglePreset::Completion,
            ],
    {
        let mut r: Vec<JinglePreset> = Vec::new();
        r.push(JinglePreset::Notification);
        r.push(JinglePreset::Success);
        r.push(JinglePreset::Alert);
        r.push(JinglePreset::Error);
        r.push(JinglePreset::Startup);
        r.push(JinglePreset::Shutdown);
        r.push(JinglePreset::Message);
        r.push(JinglePreset::Completion);
        r
    }

    /// Get the name of this preset as a string.
    pub fn name(&self) -> (r: &'static str)
        ensures
            *self is Notification ==> r@ == "notification"@,
            *self is Success ==> r@ == "success"@,
            *self is Alert ==> r@ == "alert"@,
            *self is Error ==> r@ == "error"@,
            *self is Startup ==> r@ == "startup"@,
            *self is Shutdown ==> r@ == "shutdown"@,
            *self is Message ==> r@ == "message"@,
            *self is Completion ==> r@ == "completion"@,
    {
        match self {
            JinglePreset::Notification => "notification",
            JinglePreset::Success => "success",
            JinglePreset::Alert => "alert",
            JinglePreset::Error => "error",
            JinglePreset::Startup => "startup",
            JinglePreset::Shutdown => "shutdown",
            JinglePreset::Message => "message",
            JinglePreset::Completion => "completion",
        }
    }
}

} // verus!
