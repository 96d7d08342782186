//! Audio effects processing: the delay line shared by echo and reverb,
//! the one-pole low-pass filter, automatic gain control, and whole-buffer
//! peak normalization.  All state and samples are fixed-point millionths.

use vstd::prelude::*;
use std::collections::VecDeque;
use crate::fixed::{div_tz, mag, fx_div, fx_mul_div, fx_clamp, spec_clamp, FX_ONE};
use crate::stream::Source;
use crate::SAMPLE_RATE;

verus! {

/// Upper clamp on delay feedback: 0.95 in millionths.
pub const DB_FEEDBACK_MAX: i64 = 950_000;

/// Largest input magnitude a delay line accepts per sample.
pub const DB_INPUT_CAP: i64 = 200_000_000_000;

/// Largest magnitude a delay-line history entry can reach under the input
/// cap: the cap scaled by the worst-case feedback series.
pub const DB_ENTRY_CAP: i64 = 5_000_000_000_000;

/// Longest delay accepted, in fixed-point milliseconds (one minute).
pub const DB_DELAY_MS_MAX: i64 = 60_000_000_000;

/// The steady-state magnitude bound of a delay line fed inputs of
/// magnitude at most `c` with feedback `fb`: the geometric series
/// `c / (1 - fb)`, rounded up.
pub open spec fn spec_db_bound(c: int, fb: int) -> int {
    (c * (FX_ONE as int)) / (FX_ONE - fb) + 1
}

/// Simple delay buffer for creating echo and reverb effects: a bounded
/// FIFO of past feedback outputs, read `delay_samples` behind the write
/// head, with wet/dry mixing.
#[derive(Clone)]
pub struct DelayBuffer {
    buffer: VecDeque<i64>,
    max_delay_samples: usize,
    delay_samples: usize,
    feedback: i64,
    mix: i64,
}

impl DelayBuffer {
    /// Well-formed delay state: clamped coefficients, a history that never
    /// outgrows its capacity, and entries within the global cap.
    pub closed spec fn wf(&self) -> bool {
        &&& self.max_delay_samples == if self.delay_samples >= 1 {
            self.delay_samples as int
        } else {
            1int
        }
        &&& self.buffer@.len() <= self.max_delay_samples
        &&& 0 <= self.feedback <= DB_FEEDBACK_MAX
        &&& 0 <= self.mix <= FX_ONE
        &&& forall|i: int| 0 <= i < self.buffer@.len() ==> mag(#[trigger] self.buffer@[i] as int)
            <= DB_ENTRY_CAP
    }

    /// The history entries, oldest first.
    pub closed spec fn spec_entries(&self) -> Seq<i64> {
        self.buffer@
    }

    /// The configured delay in samples.
    pub closed spec fn spec_delay_samples(&self) -> int {
        self.delay_samples as int
    }

    /// The history capacity in samples.
    pub closed spec fn spec_capacity(&self) -> int {
        self.max_delay_samples as int
    }

    /// The clamped feedback coefficient.
    pub closed spec fn spec_feedback(&self) -> i64 {
        self.feedback
    }

    /// The clamped wet/dry mix.
    pub closed spec fn spec_mix(&self) -> i64 {
        self.mix
    }

    /// The history once zero-padded to capacity, as processing sees it.
    pub open spec fn spec_padded(&self) -> Seq<i64> {
        self.spec_entries() + Seq::new(
            (self.spec_capacity() - self.spec_entries().len()) as nat,
            |i: int| 0i64,
        )
    }

    /// The delayed sample read by the next processing step: the oldest
    /// entry of the zero-primed history.  With the history kept at exactly
    /// the configured capacity, that is the feedback value appended
    /// `delay_samples` calls earlier (a zero-sample delay is clamped to a
    /// one-sample capacity), or a priming zero while the history is still
    /// filling.
    pub open spec fn spec_delayed(&self) -> i64 {
        self.spec_padded()[0]
    }

    /// The feedback value pushed onto the history for an input.
    pub open spec fn spec_feedback_out(&self, input: i64) -> int {
        input + div_tz(self.spec_delayed() * self.spec_feedback(), FX_ONE as int)
    }

    /// The wet/dry mixed output for an input.
    pub open spec fn spec_output(&self, input: i64) -> int {
        div_tz(input * (FX_ONE - self.spec_mix()), FX_ONE as int) + div_tz(
            self.spec_delayed() * self.spec_mix(),
            FX_ONE as int,
        )
    }

    /// The wet share alone: the delayed sample scaled by the mix, with no
    /// dry contribution.
    pub open spec fn spec_wet(&self) -> int {
        div_tz(self.spec_delayed() * self.spec_mix(), FX_ONE as int)
    }

    /// Create a new delay buffer.
    ///
    /// - `delay_ms`: delay time in fixed-point milliseconds
    /// - `feedback`: amount of delayed signal fed back, clamped to
    ///   `[0, 0.95]`
    /// - `mix`: wet/dry mix, clamped to `[0, 1]`
    pub fn new(delay_ms: i64, feedback: i64, mix: i64) -> (r: DelayBuffer)
        requires
            0 <= delay_ms <= DB_DELAY_MS_MAX,
        ensures
            r.wf(),
            r.spec_entries().len() == 0,
            r.spec_delay_samples() == div_tz(
                delay_ms * (SAMPLE_RATE as int),
                1000 * (FX_ONE as int),
            ),
            r.spec_capacity() == if r.spec_delay_samples() >= 1 {
                r.spec_delay_samples()
            } else {
                1int
            },
            r.spec_feedback() == spec_clamp(feedback as int, 0, DB_FEEDBACK_MAX as int),
            r.spec_mix() == spec_clamp(mix as int, 0, FX_ONE as int),
    {
        proof {
            assert(0 <= delay_ms * (SAMPLE_RATE as int) <= 2_646_000_000_000_000int)
                by (nonlinear_arith)
                requires
                    0 <= delay_ms <= DB_DELAY_MS_MAX,
            ;
            crate::fixed::lemma_div_tz_mag(
                (delay_ms * (SAMPLE_RATE as i64)) as int,
                1000 * (FX_ONE as int),
            );
            crate::fixed::lemma_div_le(
                (delay_ms * (SAMPLE_RATE as i64)) as int,
                2_646_000_000_000_000int,
                1000 * (FX_ONE as int),
            );
            assert(2_646_000_000_000_000int / 1_000_000_000int == 2_646_000int) by {
                vstd::arithmetic::div_mod::lemma_fundamental_div_mod_converse(
                    2_646_000_000_000_000int,
                    1_000_000_000int,
                    2_646_000int,
                    0int,
                );
            }
        }
        let delay_samples_fx = fx_div(delay_ms * (SAMPLE_RATE as i64), 1000 * FX_ONE);
        let delay_samples: usize = delay_samples_fx as usize;
        let max_delay_samples: usize = if delay_samples >= 1 {
            delay_samples
        } else {
            1
        };
        DelayBuffer {
            buffer: VecDeque::new(),
            max_delay_samples,
            delay_samples,
            feedback: fx_clamp(feedback, 0, DB_FEEDBACK_MAX),
            mix: fx_clamp(mix, 0, FX_ONE),
        }
    }

    /// Advance the delay line by one sample: prime the history with zeros
    /// on first use, read the delayed sample (the oldest history entry,
    /// written `delay_samples` calls earlier), push the input plus scaled
    /// feedback, evict the oldest entry, and hand the delayed sample back
    /// for mixing.
    fn advance(&mut self, input: i64) -> (d: i64)
        requires
            old(self).wf(),
            mag(input as int) <= DB_INPUT_CAP,
        ensures
            final(self).wf(),
            final(self).spec_delay_samples() == old(self).spec_delay_samples(),
            final(self).spec_capacity() == old(self).spec_capacity(),
            final(self).spec_feedback() == old(self).spec_feedback(),
            final(self).spec_mix() == old(self).spec_mix(),
            d == old(self).spec_delayed(),
            mag(d as int) <= DB_ENTRY_CAP,
            final(self).spec_entries() == old(self).spec_padded().push(
                old(self).spec_feedback_out(input) as i64,
            ).drop_first(),
    {
        let ghost pre = *self;
        while self.buffer.len() < self.max_delay_samples
            invariant
                self.wf(),
                self.max_delay_samples == pre.max_delay_samples,
                self.delay_samples == pre.delay_samples,
                self.feedback == pre.feedback,
                self.mix == pre.mix,
                self.buffer@.len() <= self.max_delay_samples,
                pre.spec_entries().len() <= self.buffer@.len(),
                self.buffer@ == pre.spec_padded().take(self.buffer@.len() as int),
            decreases self.max_delay_samples - self.buffer@.len(),
        {
            self.buffer.push_back(0);
            proof {
                assert(self.buffer@ =~= pre.spec_padded().take(self.buffer@.len() as int));
            }
        }
        proof {
            assert(self.buffer@ =~= pre.spec_padded());
            assert(self.spec_padded() =~= self.buffer@);
        }
        let delayed: i64 = self.buffer[0];
        proof {
            assert(delayed == pre.spec_delayed());
            assert(mag(delayed as int) <= DB_ENTRY_CAP) by {
                if pre.spec_entries().len() >= 1 {
                    assert(pre.spec_padded()[0] == pre.spec_entries()[0]);
                } else {
                    assert(pre.spec_padded()[0] == 0i64);
                }
            }
            assert(mag(delayed * self.feedback) <= DB_ENTRY_CAP * (DB_FEEDBACK_MAX as int))
                by (nonlinear_arith)
                requires
                    mag(delayed as int) <= DB_ENTRY_CAP,
                    0 <= self.feedback <= DB_FEEDBACK_MAX,
            ;
            crate::fixed::lemma_div_tz_mag((delayed * self.feedback) as int, FX_ONE as int);
            crate::fixed::lemma_div_le(
                mag((delayed * self.feedback) as int),
                DB_ENTRY_CAP * (DB_FEEDBACK_MAX as int),
                FX_ONE as int,
            );
        }
        let output_sample = input + fx_mul_div(delayed, self.feedback, FX_ONE);
        self.buffer.push_back(output_sample);
        let _ = self.buffer.pop_front();
        proof {
            assert(self.buffer@ =~= pre.spec_padded().push(
                pre.spec_feedback_out(input) as i64,
            ).drop_first());
        }
        delayed
    }

    /// Process a single sample: advance the delay line and return the
    /// wet/dry mix of input and delayed signal.
    pub fn process_sample(&mut self, input: i64) -> (r: i64)
        requires
            old(self).wf(),
            mag(input as int) <= DB_INPUT_CAP,
        ensures
            final(self).wf(),
            final(self).spec_delay_samples() == old(self).spec_delay_samples(),
            final(self).spec_capacity() == old(self).spec_capacity(),
            final(self).spec_feedback() == old(self).spec_feedback(),
            final(self).spec_mix() == old(self).spec_mix(),
            r == old(self).spec_output(input),
            final(self).spec_entries() == old(self).spec_padded().push(
                old(self).spec_feedback_out(input) as i64,
            ).drop_first(),
            mag(r as int) <= DB_ENTRY_CAP + 1,
    {
        let mix = self.mix;
        let delayed = self.advance(input);
        proof {
            crate::fixed::lemma_scale_mag(input as int, (FX_ONE - mix) as int, DB_INPUT_CAP
                as int, FX_ONE as int);
            crate::fixed::lemma_scale_mag(delayed as int, mix as int, DB_ENTRY_CAP as int,
                FX_ONE as int);
        }
        fx_mul_div(input, FX_ONE - mix, FX_ONE) + fx_mul_div(delayed, mix, FX_ONE)
    }

    /// Process a single sample but return only the wet share, the delayed
    /// signal scaled by the mix: the delay line advances exactly as in
    /// `process_sample`, and the caller adds the dry signal itself — the
    /// reverb sums its taps' wet outputs onto the dry sample once, not
    /// once per tap.
    pub fn process_sample_wet(&mut self, input: i64) -> (r: i64)
        requires
            old(self).wf(),
            mag(input as int) <= DB_INPUT_CAP,
        ensures
            final(self).wf(),
            final(self).spec_delay_samples() == old(self).spec_delay_samples(),
            final(self).spec_capacity() == old(self).spec_capacity(),
            final(self).spec_feedback() == old(self).spec_feedback(),
            final(self).spec_mix() == old(self).spec_mix(),
            r == old(self).spec_wet(),
            final(self).spec_entries() == old(self).spec_padded().push(
                old(self).spec_feedback_out(input) as i64,
            ).drop_first(),
            mag(r as int) <= DB_ENTRY_CAP,
    {
        let mix = self.mix;
        let delayed = self.advance(input);
        proof {
            crate::fixed::lemma_scale_mag(delayed as int, mix as int, DB_ENTRY_CAP as int,
                FX_ONE as int);
        }
        fx_mul_div(delayed, mix, FX_ONE)
    }
}

/// Echo effect wrapper for any source: each upstream sample passes
/// through one delay buffer.
pub struct Echo<S: Source> {
    source: S,
    delay_buffer: DelayBuffer,
}

impl<S: Source> Echo<S> {
    /// Create a new echo effect.
    ///
    /// - `delay_ms`: echo delay in fixed-point milliseconds
    /// - `feedback`: echo feedback amount, clamped to `[0, 0.95]`
    /// - `mix`: wet/dry mix, clamped to `[0, 1]`
    pub fn new(source: S, delay_ms: i64, feedback: i64, mix: i64) -> (r: Echo<S>)
        requires
            source.inv(),
            0 <= source.bound() <= DB_INPUT_CAP,
            0 <= delay_ms <= DB_DELAY_MS_MAX,
        ensures
            r.inv(),
            r.remaining() == source.remaining(),
            r.spec_channels() == source.spec_channels(),
            r.spec_sample_rate() == source.spec_sample_rate(),
            r.spec_duration() == source.spec_duration(),
            r.spec_delay_buffer().spec_delay_samples() == div_tz(
                delay_ms * (SAMPLE_RATE as int),
                1000 * (FX_ONE as int),
            ),
            r.spec_delay_buffer().spec_feedback() == spec_clamp(
                feedback as int,
                0,
                DB_FEEDBACK_MAX as int,
            ),
            r.spec_delay_buffer().spec_mix() == spec_clamp(mix as int, 0, FX_ONE as int),
            r.spec_delay_buffer().spec_entries().len() == 0,
            r.spec_source() == source,
    {
        Echo { source, delay_buffer: DelayBuffer::new(delay_ms, feedback, mix) }
    }

    /// The echo's delay line.
    pub closed spec fn spec_delay_buffer(&self) -> DelayBuffer {
        self.delay_buffer
    }

    /// The upstream source.
    pub closed spec fn spec_source(&self) -> S {
        self.source
    }

    /// The upstream's next value, as the sample the delay line consumes.
    pub open spec fn spec_source_value(&self) -> i64 {
        self.spec_source().spec_next_value() as i64
    }
}

impl<S: Source> Source for Echo<S> {
    closed spec fn inv(&self) -> bool {
        &&& self.source.inv()
        &&& self.delay_buffer.wf()
        &&& 0 <= self.source.bound() <= DB_INPUT_CAP
        &&& forall|i: int| 0 <= i < self.delay_buffer.spec_entries().len() ==> mag(
            #[trigger] self.delay_buffer.spec_entries()[i] as int,
        ) <= spec_db_bound(self.source.bound(), self.delay_buffer.spec_feedback() as int)
    }

    open spec fn remaining(&self) -> nat {
        self.spec_source().remaining()
    }

    open spec fn bound(&self) -> int {
        spec_db_bound(self.spec_source().bound(), self.spec_delay_buffer().spec_feedback() as int)
    }

    open spec fn spec_channels(&self) -> u16 {
        self.spec_source().spec_channels()
    }

    open spec fn spec_sample_rate(&self) -> u32 {
        self.spec_source().spec_sample_rate()
    }

    open spec fn spec_duration(&self) -> i64 {
        self.spec_source().spec_duration()
    }

    open spec fn spec_next_value(&self) -> int {
        self.spec_delay_buffer().spec_output(self.spec_source_value())
    }

    fn next(&mut self) -> (r: Option<i64>)
        ensures
            final(self).spec_delay_buffer().spec_delay_samples() == old(
                self,
            ).spec_delay_buffer().spec_delay_samples(),
            final(self).spec_delay_buffer().spec_capacity() == old(
                self,
            ).spec_delay_buffer().spec_capacity(),
            final(self).spec_delay_buffer().spec_feedback() == old(
                self,
            ).spec_delay_buffer().spec_feedback(),
            final(self).spec_delay_buffer().spec_mix() == old(self).spec_delay_buffer().spec_mix(),
            r is Some ==> final(self).spec_delay_buffer().spec_entries() == old(
                self,
            ).spec_delay_buffer().spec_padded().push(
                old(self).spec_delay_buffer().spec_feedback_out(old(self).spec_source_value())
                    as i64,
            ).drop_first(),
            r is None ==> final(self).spec_delay_buffer() == old(self).spec_delay_buffer(),
    {
        match self.source.next() {
            None => None,
            Some(s) => {
                proof {
                    lemma_db_step_stable(self.delay_buffer, s, self.source.bound());
                }
                Some(self.delay_buffer.process_sample(s))
            },
        }
    }

    fn channels(&self) -> (c: u16) {
        self.source.channels()
    }

    fn sample_rate(&self) -> (sr: u32) {
        self.source.sample_rate()
    }

    fn total_duration(&self) -> (d: i64) {
        self.source.total_duration()
    }
}

impl<S: Source> Echo<S> {
    /// The magnitude bound of the wrapped upstream source.
    pub open spec fn spec_source_bound(&self) -> int {
        self.spec_source().bound()
    }

    /// The echo's clamped feedback coefficient.
    pub open spec fn spec_feedback(&self) -> i64 {
        self.spec_delay_buffer().spec_feedback()
    }
}

/// An echo with feedback at most 0.6, fed by a source within a third of
/// the unit amplitude (the oscillator headroom is 0.3), never leaves the
/// unit amplitude: the geometric feedback series stays below one.
pub proof fn lemma_echo_within_unit<S: Source>(e: Echo<S>)
    requires
        0 <= e.spec_source_bound() <= 333_333,
        e.spec_feedback() <= 600_000,
        e.inv(),
    ensures
        e.bound() <= FX_ONE,
{
    let one = FX_ONE as int;
    let b = e.spec_source_bound();
    let fb = e.spec_feedback() as int;
    vstd::arithmetic::div_mod::lemma_div_is_ordered_by_denominator(b * one, 400_000, one - fb);
    assert(b * one <= 333_333 * 1_000_000int) by (nonlinear_arith)
        requires
            0 <= b <= 333_333,
            one == 1_000_000,
    ;
    crate::fixed::lemma_div_le(b * one, 333_333 * 1_000_000int, 400_000int);
    assert(333_333_000_000int / 400_000int == 833_332int) by {
        vstd::arithmetic::div_mod::lemma_fundamental_div_mod_converse(
            333_333_000_000int,
            400_000int,
            833_332int,
            200_000int,
        );
    }
}

/// The eight early-reflection delay lengths of the reverb, in fixed-point
/// milliseconds, mutually non-harmonically spaced.
pub open spec fn spec_reverb_delay_ms(i: int) -> int {
    if i == 0 {
        29_000_000
    } else if i == 1 {
        37_000_000
    } else if i == 2 {
        41_000_000
    } else if i == 3 {
        43_000_000
    } else if i == 4 {
        47_000_000
    } else if i == 5 {
        53_000_000
    } else {
        if i == 6 {
            59_000_000
        } else {
            61_000_000
        }
    }
}

/// Tap `i` of a reverb built at the given room size, damping and mix: the
/// base delay scaled by the room size, feedback `damping * 0.6`, and an
/// eighth of the requested wet mix, clamped as every delay line clamps.
pub open spec fn spec_reverb_tap_configured(
    tap: DelayBuffer,
    i: int,
    room_size: int,
    damping: int,
    mix: int,
) -> bool {
    &&& tap.spec_delay_samples() == div_tz(
        div_tz(spec_reverb_delay_ms(i) * room_size, FX_ONE as int) * (SAMPLE_RATE as int),
        1000 * (FX_ONE as int),
    )
    &&& tap.spec_feedback() == spec_clamp(
        div_tz(damping * 600_000, FX_ONE as int),
        0,
        DB_FEEDBACK_MAX as int,
    )
    &&& tap.spec_mix() == spec_clamp(div_tz(mix, 8), 0, FX_ONE as int)
}

/// The summed wet shares of a bank of delay lines: each tap's delayed
/// signal scaled by its mix, with no dry contribution.
pub open spec fn spec_wet_sum(taps: Seq<DelayBuffer>) -> int
    decreases taps.len(),
{
    if taps.len() == 0 {
        0
    } else {
        spec_wet_sum(taps.drop_last()) + taps.last().spec_wet()
    }
}

/// A per-tap wet bound gives a linear bound on the summed wet shares.
pub proof fn lemma_wet_sum_le(taps: Seq<DelayBuffer>, w: int)
    requires
        0 <= w,
        forall|i: int| 0 <= i < taps.len() ==> mag((#[trigger] taps[i]).spec_wet()) <= w,
    ensures
        mag(spec_wet_sum(taps)) <= taps.len() * w,
    decreases taps.len(),
{
    if taps.len() == 0 {
    } else {
        assert(forall|i: int| 0 <= i < taps.drop_last().len() ==> mag(
            (#[trigger] taps.drop_last()[i]).spec_wet(),
        ) <= w);
        lemma_wet_sum_le(taps.drop_last(), w);
        assert((taps.len() - 1) * w + w == taps.len() * w) by (nonlinear_arith);
    }
}

/// Simple reverb effect: eight delay lines with distinct delays, all fed
/// the same upstream sample; their wet outputs are summed onto the dry
/// sample once and the total is scaled by 0.7 to prevent clipping.
pub struct Reverb<S: Source> {
    source: S,
    delay_buffers: Vec<DelayBuffer>,
}

impl<S: Source> Reverb<S> {
    /// Create a new reverb with eight delay lines: each base delay scaled
    /// by the room size, feedback `damping * 0.6`, and the wet mix shared
    /// across the eight taps.
    pub fn new(source: S, room_size: i64, damping: i64, mix: i64) -> (r: Reverb<S>)
        requires
            source.inv(),
            0 <= source.bound() <= DB_INPUT_CAP,
            0 <= room_size <= 100 * FX_ONE,
            0 <= damping <= FX_ONE,
            0 <= mix <= FX_ONE,
        ensures
            r.inv(),
            r.remaining() == source.remaining(),
            r.spec_channels() == source.spec_channels(),
            r.spec_sample_rate() == source.spec_sample_rate(),
            r.spec_duration() == source.spec_duration(),
            r.spec_taps().len() == 8,
            forall|i: int| 0 <= i < 8 ==> spec_reverb_tap_configured(
                #[trigger] r.spec_taps()[i],
                i,
                room_size as int,
                damping as int,
                mix as int,
            ),
            forall|i: int| 0 <= i < 8 ==> (#[trigger] r.spec_taps()[i]).spec_entries().len() == 0,
            r.spec_source() == source,
    {
        let feedback = fx_mul_div(damping, 600_000, FX_ONE);
        proof {
            crate::fixed::lemma_scale_mag(damping as int, 600_000, FX_ONE as int, FX_ONE as int);
            crate::fixed::lemma_div_tz_mag((damping * 600_000) as int, FX_ONE as int);
            vstd::arithmetic::div_mod::lemma_multiply_divide_le(
                (damping * 600_000) as int,
                FX_ONE as int,
                600_000int,
            );
            assert(damping * 600_000 <= 600_000 * (FX_ONE as int)) by (nonlinear_arith)
                requires
                    0 <= damping <= FX_ONE,
            ;
        }
        let tap_mix = fx_div(mix, 8);
        let mut delay_buffers: Vec<DelayBuffer> = Vec::new();
        let mut i: usize = 0;
        while i < 8
            invariant
                0 <= i <= 8,
                0 <= room_size <= 100 * FX_ONE,
                0 <= mix <= FX_ONE,
                0 <= feedback <= 600_000,
                feedback == div_tz(damping * 600_000, FX_ONE as int),
                tap_mix == div_tz(mix as int, 8),
                delay_buffers@.len() == i,
                forall|j: int| 0 <= j < i ==> (#[trigger] delay_buffers@[j]).wf(),
                forall|j: int| 0 <= j < i ==> (#[trigger] delay_buffers@[j]).spec_feedback()
                    <= 600_000,
                forall|j: int| 0 <= j < i ==> (#[trigger] delay_buffers@[j]).spec_mix()
                    <= 125_000,
                forall|j: int| 0 <= j < i ==> (#[trigger] delay_buffers@[j]).spec_entries().len()
                    == 0,
                forall|j: int| 0 <= j < i ==> spec_reverb_tap_configured(
                    #[trigger] delay_buffers@[j],
                    j,
                    room_size as int,
                    damping as int,
                    mix as int,
                ),
            decreases 8 - i,
        {
            let base_ms: i64 = reverb_delay_ms(i);
            proof {
                assert(0 <= base_ms * room_size <= 6_100_000_000_000_000int) by (nonlinear_arith)
                    requires
                        29_000_000 <= base_ms <= 61_000_000,
                        0 <= room_size <= 100_000_000,
                ;
                crate::fixed::lemma_div_tz_mag((base_ms * room_size) as int, FX_ONE as int);
                crate::fixed::lemma_div_le(
                    (base_ms * room_size) as int,
                    6_100_000_000_000_000int,
                    FX_ONE as int,
                );
                assert(6_100_000_000_000_000int / 1_000_000int == 6_100_000_000int) by {
                    vstd::arithmetic::div_mod::lemma_fundamental_div_mod_converse(
                        6_100_000_000_000_000int,
                        1_000_000int,
                        6_100_000_000int,
                        0int,
                    );
                }
            }
            let actual_delay = fx_mul_div(base_ms, room_size, FX_ONE);
            proof {
                assert(feedback == spec_clamp(feedback as int, 0, DB_FEEDBACK_MAX as int));
                crate::fixed::lemma_div_tz_mag(mix as int, 8);
                crate::fixed::lemma_div_le(mix as int, 1_000_000int, 8int);
                assert(1_000_000int / 8int == 125_000int) by {
                    vstd::arithmetic::div_mod::lemma_fundamental_div_mod_converse(
                        1_000_000int,
                        8int,
                        125_000int,
                        0int,
                    );
                }
            }
            delay_buffers.push(DelayBuffer::new(actual_delay, feedback, tap_mix));
            i = i + 1;
        }
        Reverb { source, delay_buffers }
    }

    /// Create a small room reverb (quick, subtle).
    pub fn small_room(source: S) -> (r: Reverb<S>)
        requires
            source.inv(),
            0 <= source.bound() <= DB_INPUT_CAP,
        ensures
            r.inv(),
            r.remaining() == source.remaining(),
            r.spec_channels() == source.spec_channels(),
            r.spec_sample_rate() == source.spec_sample_rate(),
            r.spec_duration() == source.spec_duration(),
            r.spec_taps().len() == 8,
            forall|i: int| 0 <= i < 8 ==> spec_reverb_tap_configured(
                #[trigger] r.spec_taps()[i],
                i,
                500_000,
                300_000,
                200_000,
            ),
            forall|i: int| 0 <= i < 8 ==> (#[trigger] r.spec_taps()[i]).spec_entries().len() == 0,
            r.spec_source() == source,
    {
        Reverb::new(source, 500_000, 300_000, 200_000)
    }

    /// Create a large hall reverb (long, lush).
    pub fn large_hall(source: S) -> (r: Reverb<S>)
        requires
            source.inv(),
            0 <= source.bound() <= DB_INPUT_CAP,
        ensures
            r.inv(),
            r.remaining() == source.remaining(),
            r.spec_channels() == source.spec_channels(),
            r.spec_sample_rate() == source.spec_sample_rate(),
            r.spec_duration() == source.spec_duration(),
            r.spec_taps().len() == 8,
            forall|i: int| 0 <= i < 8 ==> spec_reverb_tap_configured(
                #[trigger] r.spec_taps()[i],
                i,
                1_500_000,
                500_000,
                400_000,
            ),
            forall|i: int| 0 <= i < 8 ==> (#[trigger] r.spec_taps()[i]).spec_entries().len() == 0,
            r.spec_source() == source,
    {
        Reverb::new(source, 1_500_000, 500_000, 400_000)
    }
}

/// Table lookup of the reverb base delays.
fn reverb_delay_ms(i: usize) -> (r: i64)
    requires
        i < 8,
    ensures
        r == spec_reverb_delay_ms(i as int),
        29_000_000 <= r <= 61_000_000,
{
    if i == 0 {
        29_000_000
    } else if i == 1 {
        37_000_000
    } else if i == 2 {
        41_000_000
    } else if i == 3 {
        43_000_000
    } else if i == 4 {
        47_000_000
    } else if i == 5 {
        53_000_000
    } else if i == 6 {
        59_000_000
    } else {
        61_000_000
    }
}

impl<S: Source> Reverb<S> {
    /// The upstream source.
    pub closed spec fn spec_source(&self) -> S {
        self.source
    }

    /// The magnitude bound of the wrapped upstream source.
    pub open spec fn spec_source_bound(&self) -> int {
        self.spec_source().bound()
    }

    /// The eight delay lines.
    pub closed spec fn spec_taps(&self) -> Seq<DelayBuffer> {
        self.delay_buffers@
    }

    /// The upstream's next value, as the sample the taps consume.
    pub open spec fn spec_source_value(&self) -> i64 {
        self.spec_source().spec_next_value() as i64
    }
}

/// A reverb fed by any source within a third of full scale — the
/// oscillator headroom is less than a third — never leaves the unit
/// amplitude: the dry sample plus the eight taps' wet shares, scaled by
/// 0.7, stays within one for any room size and any damping up to one.
pub proof fn lemma_reverb_within_unit<S: Source>(r: Reverb<S>)
    requires
        0 <= r.spec_source_bound() <= 333_333,
    ensures
        r.bound() <= FX_ONE,
{
}

/// The reverb's impulse response never leaves the unit amplitude, for any
/// room size, damping and mix the constructor accepts: while every tap
/// entry is within `e` and the pulled sample within `c`, the yielded
/// sample is within seven tenths of `c + e` and every new tap entry within
/// `c` plus six tenths of `e`.  A unit impulse starts with `c` at the unit
/// and empty histories; afterwards `c` is zero and the entries stay within
/// the unit, so every output stays within seven tenths of full scale.
pub proof fn lemma_reverb_impulse_step<S: Source>(r: Reverb<S>, c: int, e: int)
    requires
        r.inv(),
        0 <= c <= FX_ONE,
        0 <= e <= FX_ONE,
        mag(r.spec_source_value() as int) <= c,
        forall|i: int, j: int|
            0 <= i < 8 && 0 <= j < r.spec_taps()[i].spec_entries().len() ==> mag(
                #[trigger] r.spec_taps()[i].spec_entries()[j] as int,
            ) <= e,
    ensures
        10 * mag(r.spec_next_value()) <= 7 * (c + e),
        forall|i: int| 0 <= i < 8 ==> 10 * mag(
            (#[trigger] r.spec_taps()[i]).spec_feedback_out(r.spec_source_value()),
        ) <= 10 * c + 6 * e,
{
    let one = FX_ONE as int;
    let s = r.spec_source_value();
    let taps = r.spec_taps();
    // Each tap's delayed read is an entry or a priming zero, so within e;
    // its wet share is within an eighth of e, and its new entry within
    // c plus six tenths of e.
    assert forall|i: int| 0 <= i < 8 implies 8 * mag((#[trigger] taps[i]).spec_wet()) <= e && 10
        * mag(taps[i].spec_feedback_out(s)) <= 10 * c + 6 * e by {
        let tap = taps[i];
        assert(mag(tap.spec_delayed() as int) <= e) by {
            if tap.spec_entries().len() >= 1 {
                assert(tap.spec_padded()[0] == tap.spec_entries()[0]);
            } else {
                assert(tap.spec_padded()[0] == 0i64);
            }
        }
        let m = tap.spec_mix() as int;
        crate::fixed::lemma_div_tz_mag(tap.spec_delayed() as int * m, one);
        assert(mag(tap.spec_delayed() as int * m) == mag(tap.spec_delayed() as int) * m)
            by (nonlinear_arith)
            requires
                m >= 0,
        ;
        assert(mag(tap.spec_delayed() as int) * m <= e * 125_000) by (nonlinear_arith)
            requires
                mag(tap.spec_delayed() as int) <= e,
                0 <= m <= 125_000,
        ;
        crate::fixed::lemma_div_le(mag(tap.spec_delayed() as int) * m, e * 125_000, one);
        assert(8 * ((e * 125_000) / one) <= e) by {
            vstd::arithmetic::div_mod::lemma_fundamental_div_mod(e, 8);
            vstd::arithmetic::div_mod::lemma_mod_bound(e, 8);
            let q = e / 8;
            let r0 = e % 8;
            assert(e * 125_000 == 1_000_000 * q + r0 * 125_000) by (nonlinear_arith)
                requires
                    e == 8 * q + r0,
            ;
            vstd::arithmetic::div_mod::lemma_fundamental_div_mod_converse(
                e * 125_000,
                1_000_000,
                q,
                r0 * 125_000,
            );
        }
        let fb = tap.spec_feedback() as int;
        crate::fixed::lemma_div_tz_mag(tap.spec_delayed() as int * fb, one);
        assert(mag(tap.spec_delayed() as int * fb) == mag(tap.spec_delayed() as int) * fb)
            by (nonlinear_arith)
            requires
                fb >= 0,
        ;
        assert(mag(tap.spec_delayed() as int) * fb <= e * 600_000) by (nonlinear_arith)
            requires
                mag(tap.spec_delayed() as int) <= e,
                0 <= fb <= 600_000,
        ;
        crate::fixed::lemma_div_le(mag(tap.spec_delayed() as int) * fb, e * 600_000, one);
        assert(10 * ((e * 600_000) / one) <= 6 * e) by {
            vstd::arithmetic::div_mod::lemma_fundamental_div_mod(6 * e, 10);
            vstd::arithmetic::div_mod::lemma_mod_bound(6 * e, 10);
            let q = (6 * e) / 10;
            let r0 = (6 * e) % 10;
            assert(e * 600_000 == 1_000_000 * q + r0 * 100_000) by (nonlinear_arith)
                requires
                    6 * e == 10 * q + r0,
            ;
            vstd::arithmetic::div_mod::lemma_fundamental_div_mod_converse(
                e * 600_000,
                1_000_000,
                q,
                r0 * 100_000,
            );
        }
    }
    // The wet shares sum to at most e, so the pre-scaling total is within
    // c + e, and the 0.7 scaling keeps seven tenths of that.
    vstd::arithmetic::div_mod::lemma_fundamental_div_mod(e, 8);
    vstd::arithmetic::div_mod::lemma_mod_bound(e, 8);
    lemma_wet_sum_le(taps, e / 8);
    assert(taps.len() * (e / 8) == 8 * (e / 8)) by (nonlinear_arith)
        requires
            taps.len() == 8,
    ;
    let presc = s + spec_wet_sum(taps);
    assert(mag(presc) <= c + e);
    crate::fixed::lemma_div_tz_mag(presc * 700_000, one);
    assert(mag(presc * 700_000) == mag(presc) * 700_000) by (nonlinear_arith);
    assert(mag(presc) * 700_000 <= (c + e) * 700_000) by (nonlinear_arith)
        requires
            mag(presc) <= c + e,
    ;
    crate::fixed::lemma_div_le(mag(presc) * 700_000, (c + e) * 700_000, one);
    assert(10 * (((c + e) * 700_000) / one) <= 7 * (c + e)) by {
        vstd::arithmetic::div_mod::lemma_fundamental_div_mod(7 * (c + e), 10);
        vstd::arithmetic::div_mod::lemma_mod_bound(7 * (c + e), 10);
        let q = (7 * (c + e)) / 10;
        let r0 = (7 * (c + e)) % 10;
        assert((c + e) * 700_000 == 1_000_000 * q + r0 * 100_000) by (nonlinear_arith)
            requires
                7 * (c + e) == 10 * q + r0,
        ;
        vstd::arithmetic::div_mod::lemma_fundamental_div_mod_converse(
            (c + e) * 700_000,
            1_000_000,
            q,
            r0 * 100_000,
        );
    }
}

impl<S: Source> Source for Reverb<S> {
    closed spec fn inv(&self) -> bool {
        &&& self.source.inv()
        &&& 0 <= self.source.bound() <= DB_INPUT_CAP
        &&& self.delay_buffers@.len() == 8
        &&& forall|i: int| 0 <= i < 8 ==> (#[trigger] self.delay_buffers@[i]).wf()
        &&& forall|i: int| 0 <= i < 8 ==> (#[trigger] self.delay_buffers@[i]).spec_feedback()
            <= 600_000
        &&& forall|i: int| 0 <= i < 8 ==> (#[trigger] self.delay_buffers@[i]).spec_mix()
            <= 125_000
        &&& forall|i: int, j: int|
            0 <= i < 8 && 0 <= j < self.delay_buffers@[i].spec_entries().len() ==> mag(
                #[trigger] self.delay_buffers@[i].spec_entries()[j] as int,
            ) <= spec_db_bound(self.source.bound(), self.delay_buffers@[i].spec_feedback() as int)
    }

    open spec fn remaining(&self) -> nat {
        self.spec_source().remaining()
    }

    open spec fn bound(&self) -> int {
        3 * self.spec_source().bound() + 1
    }

    open spec fn spec_channels(&self) -> u16 {
        self.spec_source().spec_channels()
    }

    open spec fn spec_sample_rate(&self) -> u32 {
        self.spec_source().spec_sample_rate()
    }

    open spec fn spec_duration(&self) -> i64 {
        self.spec_source().spec_duration()
    }

    open spec fn spec_next_value(&self) -> int {
        let s = self.spec_source_value();
        div_tz((s + spec_wet_sum(self.spec_taps())) * 700_000, FX_ONE as int)
    }

    fn next(&mut self) -> (r: Option<i64>)
        ensures
            final(self).spec_taps().len() == old(self).spec_taps().len(),
            forall|i: int| 0 <= i < old(self).spec_taps().len() ==> {
                &&& (#[trigger] final(self).spec_taps()[i]).spec_delay_samples() == old(
                    self,
                ).spec_taps()[i].spec_delay_samples()
                &&& final(self).spec_taps()[i].spec_capacity() == old(self).spec_taps()[
                    i
                ].spec_capacity()
                &&& final(self).spec_taps()[i].spec_feedback() == old(self).spec_taps()[
                    i
                ].spec_feedback()
                &&& final(self).spec_taps()[i].spec_mix() == old(self).spec_taps()[i].spec_mix()
            },
            r is Some ==> forall|i: int| 0 <= i < old(self).spec_taps().len() ==> (
            #[trigger] final(self).spec_taps()[i]).spec_entries() == old(self).spec_taps()[
                i
            ].spec_padded().push(
                old(self).spec_taps()[i].spec_feedback_out(old(self).spec_source_value()) as i64,
            ).drop_first(),
            r is None ==> final(self).spec_taps() == old(self).spec_taps(),
    {
        match self.source.next() {
            None => None,
            Some(s) => {
                let ghost b0 = self.source.bound();
                let ghost src_snap = self.source;
                let ghost taps0 = self.delay_buffers@;
                let ghost d6 = spec_db_bound(b0, 600_000);
                proof {
                    lemma_db_bound_le(b0, 600_000);
                }
                let mut output: i64 = s;
                let mut i: usize = 0;
                while i < 8
                    invariant
                        0 <= i <= 8,
                        self.source == src_snap,
                        self.source.bound() == b0,
                        0 <= b0 <= DB_INPUT_CAP,
                        d6 == spec_db_bound(b0, 600_000),
                        0 < d6 <= 3 * DB_INPUT_CAP,
                        mag(s as int) <= b0,
                        self.delay_buffers@.len() == 8,
                        taps0.len() == 8,
                        forall|k: int| i <= k < 8 ==> #[trigger] self.delay_buffers@[k]
                            == taps0[k],
                        forall|k: int| 0 <= k < i ==> {
                            &&& (#[trigger] self.delay_buffers@[k]).spec_delay_samples()
                                == taps0[k].spec_delay_samples()
                            &&& self.delay_buffers@[k].spec_capacity() == taps0[
                                k
                            ].spec_capacity()
                            &&& self.delay_buffers@[k].spec_feedback() == taps0[
                                k
                            ].spec_feedback()
                            &&& self.delay_buffers@[k].spec_mix() == taps0[k].spec_mix()
                            &&& self.delay_buffers@[k].spec_entries() == taps0[
                                k
                            ].spec_padded().push(taps0[k].spec_feedback_out(s) as i64).drop_first()
                        },
                        forall|k: int| 0 <= k < 8 ==> (#[trigger] self.delay_buffers@[k]).wf(),
                        forall|k: int| 0 <= k < 8 ==> (
                        #[trigger] self.delay_buffers@[k]).spec_feedback() <= 600_000,
                        forall|k: int, j: int|
                            0 <= k < 8 && 0 <= j
                                < self.delay_buffers@[k].spec_entries().len() ==> mag(
                                #[trigger] self.delay_buffers@[k].spec_entries()[j] as int,
                            ) <= spec_db_bound(
                                b0,
                                self.delay_buffers@[k].spec_feedback() as int,
                            ),
                        forall|k: int| 0 <= k < 8 ==> (
                        #[trigger] self.delay_buffers@[k]).spec_mix() <= 125_000,
                        output as int == s + spec_wet_sum(taps0.take(i as int)),
                        8 * mag(output as int) <= 8 * b0 + i * d6,
                    decreases 8 - i,
                {
                    proof {
                        lemma_db_step_stable(self.delay_buffers@[i as int], s, b0);
                        lemma_db_bound_monotone(b0, self.delay_buffers@[
                            i as int].spec_feedback() as int, 600_000);
                        assert(0 <= i * d6 <= 8 * d6 && (i + 1) * d6 == i * d6 + d6)
                            by (nonlinear_arith)
                            requires
                                0 <= i <= 8,
                                d6 > 0,
                        ;
                        assert(taps0.take(i + 1 as int).drop_last() =~= taps0.take(i as int));
                        assert(taps0.take(i + 1 as int).last() == taps0[i as int]);
                    }
                    let wet = self.delay_buffers[i].process_sample_wet(s);
                    proof {
                        assert(8 * mag(wet as int) <= d6);
                    }
                    output = output + wet;
                    i = i + 1;
                }
                proof {
                    assert(taps0.take(8) =~= taps0);
                    assert(8 * d6 == i * d6) by (nonlinear_arith)
                        requires
                            i == 8,
                    ;
                    assert(mag((output as i64) * 700_000) <= mag(output as int) * 700_000)
                        by (nonlinear_arith);
                    crate::fixed::lemma_scale_mag(
                        output as int,
                        700_000,
                        (b0 + d6) as int,
                        FX_ONE as int,
                    );
                    lemma_reverb_scale(b0);
                    crate::fixed::lemma_div_le(
                        ((b0 + d6) * 700_000) as int,
                        ((b0 + d6) * 700_000) as int,
                        FX_ONE as int,
                    );
                }
                Some(fx_mul_div(output, 700_000, FX_ONE))
            },
        }
    }

    fn channels(&self) -> (c: u16) {
        self.source.channels()
    }

    fn sample_rate(&self) -> (sr: u32) {
        self.source.sample_rate()
    }

    fn total_duration(&self) -> (d: i64) {
        self.source.total_duration()
    }
}

/// The geometric bound grows with the feedback coefficient.
pub proof fn lemma_db_bound_monotone(c: int, fb1: int, fb2: int)
    requires
        0 <= c,
        0 <= fb1 <= fb2 < FX_ONE,
    ensures
        spec_db_bound(c, fb1) <= spec_db_bound(c, fb2),
{
    vstd::arithmetic::div_mod::lemma_div_is_ordered_by_denominator(
        c * (FX_ONE as int),
        FX_ONE - fb2,
        FX_ONE - fb1,
    );
}

/// The geometric bound at feedback 0.6 is at most three times the value
/// it is taken over, and at most three times the input cap.
pub proof fn lemma_db_bound_le(c: int, fb: int)
    requires
        0 <= c <= DB_INPUT_CAP,
        fb == 600_000,
    ensures
        spec_db_bound(c, fb) <= 3 * DB_INPUT_CAP,
        spec_db_bound(c, fb) <= 3 * c + 1,
{
    let one = FX_ONE as int;
    assert(c * one <= (3 * c) * (one - fb)) by (nonlinear_arith)
        requires
            0 <= c,
            one == 1_000_000,
            fb == 600_000,
    ;
    vstd::arithmetic::div_mod::lemma_multiply_divide_le(c * one, one - fb, 3 * c);
    assert((one - fb) * (3 * c) == (3 * c) * (one - fb)) by (nonlinear_arith);
}

/// The final 0.7 scaling of the reverb keeps the dry sample plus the
/// summed wet shares within the declared reverb bound.
pub proof fn lemma_reverb_scale(b: int)
    requires
        0 <= b <= DB_INPUT_CAP,
    ensures
        ((b + spec_db_bound(b, 600_000)) * 700_000) / (FX_ONE as int) <= 3 * b + 1,
{
    let one = FX_ONE as int;
    lemma_db_bound_le(b, 600_000);
    let acc = b + spec_db_bound(b, 600_000);
    assert(acc <= 4 * b + 1);
    assert(acc * 700_000 <= (4 * b + 1) * 700_000) by (nonlinear_arith)
        requires
            acc <= 4 * b + 1,
    ;
    crate::fixed::lemma_div_le(acc * 700_000, (4 * b + 1) * 700_000, one);
    assert((4 * b + 1) * 700_000 <= (3 * b + 1) * one) by (nonlinear_arith)
        requires
            0 <= b,
            one == 1_000_000,
    ;
    crate::fixed::lemma_div_le((4 * b + 1) * 700_000, (3 * b + 1) * one, one);
    vstd::arithmetic::div_mod::lemma_div_multiples_vanish(3 * b + 1, one);
    assert(one * (3 * b + 1) == (3 * b + 1) * one) by (nonlinear_arith);
}

/// The delay-line stability bound: if every history entry is within the
/// geometric bound for inputs of magnitude `c`, one more step with such an
/// input keeps every entry within it, and the delayed read and mixed
/// output stay within it too.
pub proof fn lemma_db_step_stable(pre: DelayBuffer, input: i64, c: int)
    requires
        pre.wf(),
        0 <= c <= DB_INPUT_CAP,
        mag(input as int) <= c,
        forall|i: int| 0 <= i < pre.spec_entries().len() ==> mag(
            #[trigger] pre.spec_entries()[i] as int,
        ) <= spec_db_bound(c, pre.spec_feedback() as int),
    ensures
        mag(pre.spec_feedback_out(input)) <= spec_db_bound(c, pre.spec_feedback() as int),
        mag(pre.spec_output(input)) <= spec_db_bound(c, pre.spec_feedback() as int),
        pre.spec_mix() <= 125_000 ==> 8 * mag(pre.spec_wet()) <= spec_db_bound(
            c,
            pre.spec_feedback() as int,
        ),
        forall|i: int|
            0 <= i < pre.spec_padded().push(pre.spec_feedback_out(input) as i64).drop_first().len()
                ==> mag(
                #[trigger] pre.spec_padded().push(pre.spec_feedback_out(input) as i64).drop_first()[
                    i
                ] as int,
            ) <= spec_db_bound(c, pre.spec_feedback() as int),
{
    let one = FX_ONE as int;
    let fb = pre.spec_feedback() as int;
    let d = spec_db_bound(c, fb);
    assert(d >= 1) by {
        vstd::arithmetic::div_mod::lemma_div_pos_is_pos(c * one, one - fb);
    }
    assert(d - 1 <= (c * one) / (one - fb) < d);
    // The defining property of the geometric bound: c * one <= d * (one - fb).
    assert(c * one <= d * (one - fb)) by {
        vstd::arithmetic::div_mod::lemma_fundamental_div_mod(c * one, one - fb);
        vstd::arithmetic::div_mod::lemma_mod_bound(c * one, one - fb);
        assert((d - 1) * (one - fb) <= c * one) by (nonlinear_arith)
            requires
                d - 1 == (c * one) / (one - fb),
                (one - fb) * ((c * one) / (one - fb)) <= c * one,
        ;
        assert(d * (one - fb) == (d - 1) * (one - fb) + (one - fb)) by (nonlinear_arith);
        assert(c * one <= (d - 1) * (one - fb) + (one - fb) - 1 + 1) by {
            assert(c * one - (d - 1) * (one - fb) == (c * one) % (one - fb));
        }
    }
    // Every padded entry, and hence the delayed read, is within d.
    assert(forall|i: int| 0 <= i < pre.spec_padded().len() ==> mag(
        #[trigger] pre.spec_padded()[i] as int,
    ) <= d);
    assert(mag(pre.spec_delayed() as int) <= d);
    // The new feedback entry: |input + delayed * fb / one| <= c + d * fb / one <= d.
    let scaled = div_tz(pre.spec_delayed() as int * fb, one);
    crate::fixed::lemma_scale_mag(pre.spec_delayed() as int, fb, d, one);
    assert(mag(scaled) <= (d * fb) / one);
    assert(mag(pre.spec_feedback_out(input)) <= c + (d * fb) / one);
    assert(c + (d * fb) / one <= d) by {
        vstd::arithmetic::div_mod::lemma_fundamental_div_mod(d * fb, one);
        vstd::arithmetic::div_mod::lemma_mod_bound(d * fb, one);
        assert(((d * fb) / one) * one <= d * fb);
        assert(c * one + d * fb <= d * one) by (nonlinear_arith)
            requires
                c * one <= d * (one - fb),
        ;
        assert((c + (d * fb) / one) * one <= c * one + d * fb) by (nonlinear_arith)
            requires
                ((d * fb) / one) * one <= d * fb,
        ;
        assert(c + (d * fb) / one <= d) by (nonlinear_arith)
            requires
                (c + (d * fb) / one) * one <= d * one,
                one > 0,
        ;
    }
    // The mixed output: a blend of input (<= c) and delayed (<= d).
    let m = pre.spec_mix() as int;
    let t1 = div_tz(input as int * (one - m), one);
    let t2 = div_tz(pre.spec_delayed() as int * m, one);
    crate::fixed::lemma_scale_mag(input as int, one - m, c, one);
    crate::fixed::lemma_scale_mag(pre.spec_delayed() as int, m, d, one);
    assert(mag(t1 + t2) <= mag(t1) + mag(t2));
    assert(mag(t1) * one <= c * (one - m)) by {
        vstd::arithmetic::div_mod::lemma_fundamental_div_mod(c * (one - m), one);
        vstd::arithmetic::div_mod::lemma_mod_bound(c * (one - m), one);
        assert(mag(t1) <= (c * (one - m)) / one);
        assert(((c * (one - m)) / one) * one <= c * (one - m));
        assert(mag(t1) * one <= ((c * (one - m)) / one) * one) by (nonlinear_arith)
            requires
                mag(t1) <= (c * (one - m)) / one,
                one > 0,
        ;
    }
    assert(mag(t2) * one <= d * m) by {
        vstd::arithmetic::div_mod::lemma_fundamental_div_mod(d * m, one);
        vstd::arithmetic::div_mod::lemma_mod_bound(d * m, one);
        assert(mag(t2) <= (d * m) / one);
        assert(((d * m) / one) * one <= d * m);
        assert(mag(t2) * one <= ((d * m) / one) * one) by (nonlinear_arith)
            requires
                mag(t2) <= (d * m) / one,
                one > 0,
        ;
    }
    assert(c * (one - m) + d * m <= d * one) by (nonlinear_arith)
        requires
            c <= d,
            0 <= m <= one,
    ;
    assert((mag(t1) + mag(t2)) * one <= d * one) by (nonlinear_arith)
        requires
            mag(t1) * one <= c * (one - m),
            mag(t2) * one <= d * m,
            c * (one - m) + d * m <= d * one,
    ;
    assert(mag(t1) + mag(t2) <= d) by (nonlinear_arith)
        requires
            (mag(t1) + mag(t2)) * one <= d * one,
            one > 0,
    ;
    // The wet share alone: an eighth-or-less mix leaves at most an eighth
    // of the entry bound per tap.
    if m <= 125_000 {
        let wet = pre.spec_wet();
        crate::fixed::lemma_div_tz_mag(pre.spec_delayed() as int * m, one);
        assert(mag(pre.spec_delayed() as int * m) == mag(pre.spec_delayed() as int) * m)
            by (nonlinear_arith)
            requires
                m >= 0,
        ;
        assert(mag(pre.spec_delayed() as int) * m <= d * 125_000) by (nonlinear_arith)
            requires
                mag(pre.spec_delayed() as int) <= d,
                0 <= m <= 125_000,
        ;
        crate::fixed::lemma_div_le(mag(pre.spec_delayed() as int) * m, d * 125_000, one);
        assert((d * 125_000) / one == d / 8) by {
            vstd::arithmetic::div_mod::lemma_fundamental_div_mod(d, 8);
            vstd::arithmetic::div_mod::lemma_mod_bound(d, 8);
            let q = d / 8;
            let r0 = d % 8;
            assert(d * 125_000 == 1_000_000 * q + r0 * 125_000) by (nonlinear_arith)
                requires
                    d == 8 * q + r0,
            ;
            vstd::arithmetic::div_mod::lemma_fundamental_div_mod_converse(
                d * 125_000,
                1_000_000,
                q,
                r0 * 125_000,
            );
        }
        vstd::arithmetic::div_mod::lemma_fundamental_div_mod(d, 8);
        vstd::arithmetic::div_mod::lemma_mod_bound(d, 8);
    }
}


/// Largest state or input magnitude the low-pass filter tracks.
pub const LP_CAP: i64 = 1_000_000_000_000;

/// Largest cutoff frequency accepted, in millionths of a Hz.
pub const LP_CUTOFF_MAX: i64 = 20_000_000_000;

/// Two pi in millionths, for the RC discretization.
pub const TWO_PI_FX: i64 = 6_283_185;

/// The smoothing coefficient of the RC discretization
/// `alpha = dt / (rc + dt)` for a cutoff (millionths of a Hz) and a sample
/// rate (Hz), rewritten over integers as
/// `2*pi*fc / (2*pi*fc + rate)` in millionths.
pub open spec fn spec_lp_alpha(cutoff: int, rate: int) -> int {
    let num = div_tz(TWO_PI_FX * cutoff, FX_ONE as int);
    (num * (FX_ONE as int)) / (num + rate * (FX_ONE as int))
}

/// One filter step: the convex blend of the input and the previous output
/// by the smoothing coefficient.
pub open spec fn spec_lp_step(alpha: int, prev: int, input: int) -> int {
    div_tz(alpha * input + (FX_ONE - alpha) * prev, FX_ONE as int)
}

/// A filter step stays within the larger magnitude of its two inputs.
pub proof fn lemma_lp_step_bounded(alpha: int, prev: int, input: int, m: int)
    requires
        0 <= alpha <= FX_ONE,
        mag(prev) <= m,
        mag(input) <= m,
    ensures
        mag(spec_lp_step(alpha, prev, input)) <= m,
{
    crate::fixed::lemma_convex_bound(input, prev, alpha, m, FX_ONE as int);
}

/// The step response never falls and never overshoots: with the previous
/// output below a steady input, the new output stays between them, and it
/// strictly rises while the scaled distance to the input is at least one
/// unit.
pub proof fn lemma_lp_step_monotone(alpha: int, prev: int, input: int)
    requires
        0 <= alpha <= FX_ONE,
        0 <= prev <= input,
    ensures
        prev <= spec_lp_step(alpha, prev, input) <= input,
        alpha * (input - prev) >= FX_ONE ==> spec_lp_step(alpha, prev, input) > prev,
{
    let one = FX_ONE as int;
    let num = alpha * input + (one - alpha) * prev;
    assert(one * prev <= num <= one * input) by (nonlinear_arith)
        requires
            0 <= alpha <= one,
            0 <= prev <= input,
            num == alpha * input + (one - alpha) * prev,
    ;
    crate::fixed::lemma_div_le(one * prev, num, one);
    crate::fixed::lemma_div_le(num, one * input, one);
    vstd::arithmetic::div_mod::lemma_div_multiples_vanish(prev, one);
    vstd::arithmetic::div_mod::lemma_div_multiples_vanish(input, one);
    vstd::arithmetic::div_mod::lemma_div_pos_is_pos(num, one);
    if alpha * (input - prev) >= one {
        assert(num == one * prev + alpha * (input - prev)) by (nonlinear_arith)
            requires
                num == alpha * input + (one - alpha) * prev,
        ;
        assert(num >= one * (prev + 1)) by (nonlinear_arith)
            requires
                num >= one * prev + one,
        ;
        crate::fixed::lemma_div_le(one * (prev + 1), num, one);
        vstd::arithmetic::div_mod::lemma_div_multiples_vanish(prev + 1, one);
    }
}

/// Simple one-pole low-pass filter for smoothing audio signals.
#[derive(Clone)]
pub struct LowPassFilter {
    alpha: i64,
    previous_output: i64,
}

impl LowPassFilter {
    /// Well-formed filter state.
    pub closed spec fn wf(&self) -> bool {
        &&& 0 <= self.alpha <= FX_ONE
        &&& mag(self.previous_output as int) <= LP_CAP
    }

    /// The smoothing coefficient.
    pub closed spec fn spec_alpha(&self) -> i64 {
        self.alpha
    }

    /// The retained previous output.
    pub closed spec fn spec_previous_output(&self) -> i64 {
        self.previous_output
    }

    /// Create a new low-pass filter from a cutoff frequency (millionths of
    /// a Hz) and a sample rate (Hz).
    pub fn new(cutoff_frequency: i64, sample_rate: u32) -> (r: LowPassFilter)
        requires
            0 < cutoff_frequency <= LP_CUTOFF_MAX,
            1 <= sample_rate <= 1_000_000,
        ensures
            r.wf(),
            r.spec_alpha() == spec_lp_alpha(cutoff_frequency as int, sample_rate as int),
            r.spec_previous_output() == 0,
            0 <= r.spec_alpha() < FX_ONE,
            cutoff_frequency >= 160_000 ==> r.spec_alpha() >= 1,
    {
        proof {
            assert(0 <= TWO_PI_FX * cutoff_frequency <= 125_663_700_000_000_000int)
                by (nonlinear_arith)
                requires
                    0 < cutoff_frequency <= LP_CUTOFF_MAX,
            ;
            crate::fixed::lemma_div_tz_mag((TWO_PI_FX * cutoff_frequency) as int, FX_ONE as int);
            crate::fixed::lemma_div_le(
                (TWO_PI_FX * cutoff_frequency) as int,
                125_663_700_000_000_000int,
                FX_ONE as int,
            );
            assert(125_663_700_000_000_000int / 1_000_000int == 125_663_700_000int) by {
                vstd::arithmetic::div_mod::lemma_fundamental_div_mod_converse(
                    125_663_700_000_000_000int,
                    1_000_000int,
                    125_663_700_000int,
                    0int,
                );
            }
        }
        let num = fx_mul_div(TWO_PI_FX, cutoff_frequency, FX_ONE);
        let den = num + (sample_rate as i64) * FX_ONE;
        proof {
            assert(0 <= num * FX_ONE <= 125_663_700_000int * 1_000_000int) by (nonlinear_arith)
                requires
                    0 <= num <= 125_663_700_000,
                    FX_ONE == 1_000_000,
            ;
            assert(num * (FX_ONE as int) < den * (FX_ONE as int)) by (nonlinear_arith)
                requires
                    den > num,
                    FX_ONE == 1_000_000,
            ;
            vstd::arithmetic::div_mod::lemma_multiply_divide_lt(
                (num as i64) * FX_ONE as int,
                den as int,
                FX_ONE as int,
            );
            assert(den * (FX_ONE as int) == (FX_ONE as int) * den) by (nonlinear_arith);
            vstd::arithmetic::div_mod::lemma_div_pos_is_pos((num * FX_ONE) as int, den as int);
            if cutoff_frequency >= 160_000 {
                // Any cutoff of at least 0.16 Hz gives a positive
                // coefficient: the numerator clears the denominator.
                assert(TWO_PI_FX * cutoff_frequency >= 1_005_309_600_000int) by (nonlinear_arith)
                    requires
                        cutoff_frequency >= 160_000,
                        TWO_PI_FX == 6_283_185,
                ;
                crate::fixed::lemma_div_le(
                    1_005_309_600_000int,
                    (TWO_PI_FX * cutoff_frequency) as int,
                    FX_ONE as int,
                );
                assert(1_005_309_600_000int / 1_000_000int == 1_005_309int) by {
                    vstd::arithmetic::div_mod::lemma_fundamental_div_mod_converse(
                        1_005_309_600_000int,
                        1_000_000int,
                        1_005_309int,
                        600_000int,
                    );
                }
                assert(num * (FX_ONE as int) >= den) by (nonlinear_arith)
                    requires
                        num >= 1_005_309,
                        den <= num + 1_000_000_000_000,
                        FX_ONE == 1_000_000,
                ;
                crate::fixed::lemma_div_le(den as int, (num * FX_ONE) as int, den as int);
                vstd::arithmetic::div_mod::lemma_div_by_self(den as int);
            }
        }
        let alpha = fx_div(num * FX_ONE, den);
        LowPassFilter { alpha, previous_output: 0 }
    }

    /// Process a single sample through the filter: blend it with the
    /// previous output by the smoothing coefficient, store and return the
    /// result.
    pub fn process_sample(&mut self, input: i64) -> (r: i64)
        requires
            old(self).wf(),
            mag(input as int) <= LP_CAP,
        ensures
            final(self).wf(),
            final(self).spec_alpha() == old(self).spec_alpha(),
            r == spec_lp_step(
                old(self).spec_alpha() as int,
                old(self).spec_previous_output() as int,
                input as int,
            ),
            final(self).spec_previous_output() == r,
            mag(r as int) <= if mag(input as int) >= mag(old(self).spec_previous_output() as int) {
                mag(input as int)
            } else {
                mag(old(self).spec_previous_output() as int)
            },
    {
        proof {
            let m = if mag(input as int) >= mag(self.previous_output as int) {
                mag(input as int)
            } else {
                mag(self.previous_output as int)
            };
            lemma_lp_step_bounded(self.alpha as int, self.previous_output as int, input as int, m);
            assert(mag(self.alpha * input) <= 1_000_000_000_000_000_000int && mag(
                (FX_ONE - self.alpha) * self.previous_output,
            ) <= 1_000_000_000_000_000_000int) by (nonlinear_arith)
                requires
                    0 <= self.alpha <= FX_ONE,
                    mag(input as int) <= LP_CAP,
                    mag(self.previous_output as int) <= LP_CAP,
                    FX_ONE == 1_000_000,
                    LP_CAP == 1_000_000_000_000,
            ;
        }
        let output = fx_div(self.alpha * input + (FX_ONE - self.alpha) * self.previous_output,
            FX_ONE);
        self.previous_output = output;
        output
    }

    /// Reset the filter state to silence.
    pub fn reset(&mut self)
        requires
            old(self).wf(),
        ensures
            final(self).wf(),
            final(self).spec_alpha() == old(self).spec_alpha(),
            final(self).spec_previous_output() == 0,
    {
        self.previous_output = 0;
    }
}

/// Low-pass filter wrapper for any source.
pub struct LowPass<S: Source> {
    source: S,
    filter: LowPassFilter,
}

impl<S: Source> LowPass<S> {
    /// Create a new low-pass filter effect at the given cutoff (millionths
    /// of a Hz), discretized at the library sample rate.
    pub fn new(source: S, cutoff_frequency: i64) -> (r: LowPass<S>)
        requires
            source.inv(),
            0 < cutoff_frequency <= LP_CUTOFF_MAX,
            0 <= source.bound() <= LP_CAP,
        ensures
            r.inv(),
            r.remaining() == source.remaining(),
            r.bound() == source.bound(),
            r.spec_channels() == source.spec_channels(),
            r.spec_sample_rate() == source.spec_sample_rate(),
            r.spec_duration() == source.spec_duration(),
            r.spec_source() == source,
            r.spec_filter().spec_alpha() == spec_lp_alpha(
                cutoff_frequency as int,
                SAMPLE_RATE as int,
            ),
            r.spec_filter().spec_previous_output() == 0,
    {
        LowPass { source, filter: LowPassFilter::new(cutoff_frequency, SAMPLE_RATE) }
    }

    /// Create a smooth/warm low-pass filter (4 kHz cutoff).
    pub fn smooth(source: S) -> (r: LowPass<S>)
        requires
            source.inv(),
            0 <= source.bound() <= LP_CAP,
        ensures
            r.inv(),
            r.remaining() == source.remaining(),
            r.bound() == source.bound(),
            r.spec_channels() == source.spec_channels(),
            r.spec_sample_rate() == source.spec_sample_rate(),
            r.spec_duration() == source.spec_duration(),
            r.spec_source() == source,
            r.spec_filter().spec_alpha() == spec_lp_alpha(4_000_000_000, SAMPLE_RATE as int),
            r.spec_filter().spec_previous_output() == 0,
    {
        LowPass::new(source, 4_000_000_000)
    }

    /// Create a muffled low-pass filter (1 kHz cutoff).
    pub fn muffled(source: S) -> (r: LowPass<S>)
        requires
            source.inv(),
            0 <= source.bound() <= LP_CAP,
        ensures
            r.inv(),
            r.remaining() == source.remaining(),
            r.bound() == source.bound(),
            r.spec_channels() == source.spec_channels(),
            r.spec_sample_rate() == source.spec_sample_rate(),
            r.spec_duration() == source.spec_duration(),
            r.spec_source() == source,
            r.spec_filter().spec_alpha() == spec_lp_alpha(1_000_000_000, SAMPLE_RATE as int),
            r.spec_filter().spec_previous_output() == 0,
    {
        LowPass::new(source, 1_000_000_000)
    }

    /// The low-pass filter state.
    pub closed spec fn spec_filter(&self) -> LowPassFilter {
        self.filter
    }

    /// The upstream source.
    pub closed spec fn spec_source(&self) -> S {
        self.source
    }

    /// The magnitude bound of the wrapped upstream source.
    pub open spec fn spec_source_bound(&self) -> int {
        self.spec_source().bound()
    }

    /// The upstream's next value, as the sample the filter consumes.
    pub open spec fn spec_source_value(&self) -> i64 {
        self.spec_source().spec_next_value() as i64
    }
}

impl<S: Source> Source for LowPass<S> {
    closed spec fn inv(&self) -> bool {
        &&& self.source.inv()
        &&& self.filter.wf()
        &&& 0 <= self.source.bound() <= LP_CAP
        &&& mag(self.filter.spec_previous_output() as int) <= self.source.bound()
    }

    open spec fn remaining(&self) -> nat {
        self.spec_source().remaining()
    }

    open spec fn bound(&self) -> int {
        self.spec_source().bound()
    }

    open spec fn spec_channels(&self) -> u16 {
        self.spec_source().spec_channels()
    }

    open spec fn spec_sample_rate(&self) -> u32 {
        self.spec_source().spec_sample_rate()
    }

    open spec fn spec_duration(&self) -> i64 {
        self.spec_source().spec_duration()
    }

    open spec fn spec_next_value(&self) -> int {
        spec_lp_step(
            self.spec_filter().spec_alpha() as int,
            self.spec_filter().spec_previous_output() as int,
            self.spec_source_value() as int,
        )
    }

    fn next(&mut self) -> (r: Option<i64>)
        ensures
            final(self).spec_filter().spec_alpha() == old(self).spec_filter().spec_alpha(),
            r matches Some(v) ==> final(self).spec_filter().spec_previous_output() == v,
            r is None ==> final(self).spec_filter() == old(self).spec_filter(),
    {
        match self.source.next() {
            None => None,
            Some(s) => Some(self.filter.process_sample(s)),
        }
    }

    fn channels(&self) -> (c: u16) {
        self.source.channels()
    }

    fn sample_rate(&self) -> (sr: u32) {
        self.source.sample_rate()
    }

    fn total_duration(&self) -> (d: i64) {
        self.source.total_duration()
    }
}

/// The end-to-end opening sample: a low-pass filter freshly wrapped
/// around an oscillator with a positive attack yields exactly zero on its
/// first pull — the upstream's zero envelope dominates the waveform, and
/// the filter step of zero over a zero state is zero.
pub proof fn lemma_lowpass_oscillator_first_sample(l: LowPass<crate::audio::Oscillator>)
    requires
        l.inv(),
        l.spec_filter().spec_previous_output() == 0,
        l.spec_source().spec_adsr().attack > 0,
        l.spec_source().spec_current_sample() == 0,
        l.spec_source().wf(),
    ensures
        l.spec_next_value() == 0,
{
    crate::audio::lemma_first_sample_zero(l.spec_source());
    assert(l.spec_source_value() == 0);
    vstd::arithmetic::div_mod::lemma_div_of0(FX_ONE as int);
}

/// Lower clamp on the adaptive gain: 0.1 in millionths.
pub const AGC_GAIN_MIN: i64 = 100_000;

/// Upper clamp on the adaptive gain: 10 in millionths.
pub const AGC_GAIN_MAX: i64 = 10_000_000;

/// Largest input magnitude the gain control accepts per sample.
pub const AGC_IN_CAP: i64 = 100_000_000_000;

/// Longest attack or release time accepted, in fixed-point seconds.
pub const AGC_TIME_MAX: i64 = 10_000_000;

/// The one-pole smoothing coefficient for a time constant of `t`
/// fixed-point seconds at `rate` Hz: the discrete decay
/// `t*rate / (t*rate + 1)`, written over integers.  A zero time constant
/// yields zero (no smoothing), and very long constants saturate at one.
pub open spec fn spec_agc_coeff(t: int, rate: int) -> int {
    FX_ONE - ((FX_ONE as int) * (FX_ONE as int)) / (t * rate + FX_ONE)
}

/// One envelope-follower step: the level decays toward the input's
/// magnitude, fast on attack (rising) and slow on release (falling).
pub open spec fn spec_agc_follower(f: int, level: int, ac: int, rc: int) -> int {
    if level > f {
        level + div_tz((f - level) * ac, FX_ONE as int)
    } else {
        level + div_tz((f - level) * rc, FX_ONE as int)
    }
}

/// One gain step: the required gain is the target over the follower (unity
/// on near silence), approached with the release coefficient when rising
/// and the attack coefficient when falling, then clamped.
pub open spec fn spec_agc_gain(g: int, f2: int, target: int, ac: int, rc: int) -> int {
    let rg = if f2 > 100 {
        (target * (FX_ONE as int)) / f2
    } else {
        FX_ONE as int
    };
    let gd = rg - g;
    let c = if gd > 0 {
        rc
    } else {
        ac
    };
    spec_clamp(g + div_tz(gd * (FX_ONE - c), FX_ONE as int), AGC_GAIN_MIN as int, AGC_GAIN_MAX as int)
}

/// Compute the one-pole smoothing coefficient.
fn agc_coeff(t: i64, rate: u32) -> (r: i64)
    requires
        0 <= t <= AGC_TIME_MAX,
        1 <= rate <= 1_000_000,
    ensures
        r == spec_agc_coeff(t as int, rate as int),
        0 <= r <= FX_ONE,
{
    proof {
        assert(0 <= t * (rate as int) <= 10_000_000_000_000int) by (nonlinear_arith)
            requires
                0 <= t <= AGC_TIME_MAX,
                1 <= rate <= 1_000_000,
        ;
        vstd::arithmetic::div_mod::lemma_div_pos_is_pos(
            (FX_ONE as int) * (FX_ONE as int),
            (t * (rate as i64) + FX_ONE) as int,
        );
        vstd::arithmetic::div_mod::lemma_div_is_ordered_by_denominator(
            (FX_ONE as int) * (FX_ONE as int),
            FX_ONE as int,
            (t * (rate as i64) + FX_ONE) as int,
        );
        vstd::arithmetic::div_mod::lemma_div_multiples_vanish(FX_ONE as int, FX_ONE as int);
    }
    let q = FX_ONE * FX_ONE / (t * (rate as i64) + FX_ONE);
    FX_ONE - q
}

/// Automatic gain control for dynamic range compression: a peak-detecting
/// envelope follower drives an adaptive, clamped gain.
#[derive(Clone)]
pub struct AutomaticGainControl {
    target_level: i64,
    attack_time: i64,
    release_time: i64,
    current_gain: i64,
    envelope_follower: i64,
    sample_rate: u32,
}

impl AutomaticGainControl {
    /// Well-formed gain-control state.
    pub closed spec fn wf(&self) -> bool {
        &&& 0 <= self.target_level <= FX_ONE
        &&& 0 <= self.attack_time <= AGC_TIME_MAX
        &&& 0 <= self.release_time <= AGC_TIME_MAX
        &&& AGC_GAIN_MIN <= self.current_gain <= AGC_GAIN_MAX
        &&& 0 <= self.envelope_follower <= AGC_IN_CAP
        &&& 1 <= self.sample_rate <= 1_000_000
    }

    /// The clamped target output level.
    pub closed spec fn spec_target_level(&self) -> i64 {
        self.target_level
    }

    /// The attack time constant, in fixed-point seconds.
    pub closed spec fn spec_attack_time(&self) -> i64 {
        self.attack_time
    }

    /// The release time constant, in fixed-point seconds.
    pub closed spec fn spec_release_time(&self) -> i64 {
        self.release_time
    }

    /// The current adaptive gain.
    pub closed spec fn spec_current_gain(&self) -> i64 {
        self.current_gain
    }

    /// The envelope follower's current level estimate.
    pub closed spec fn spec_envelope_follower(&self) -> i64 {
        self.envelope_follower
    }

    /// The sample rate in Hz.
    pub closed spec fn spec_sample_rate(&self) -> u32 {
        self.sample_rate
    }

    /// Create a new gain control.
    ///
    /// - `target_level`: desired output level, clamped to `[0, 1]`
    /// - `attack_time`: time to reduce gain on loud signal, fixed-point
    ///   seconds
    /// - `release_time`: time to raise gain on quiet signal, fixed-point
    ///   seconds
    pub fn new(target_level: i64, attack_time: i64, release_time: i64, sample_rate: u32) -> (r:
        AutomaticGainControl)
        requires
            0 <= attack_time <= AGC_TIME_MAX,
            0 <= release_time <= AGC_TIME_MAX,
            1 <= sample_rate <= 1_000_000,
        ensures
            r.wf(),
            r.spec_target_level() == spec_clamp(target_level as int, 0, FX_ONE as int),
            r.spec_attack_time() == attack_time,
            r.spec_release_time() == release_time,
            r.spec_current_gain() == FX_ONE,
            r.spec_envelope_follower() == 0,
            r.spec_sample_rate() == sample_rate,
    {
        AutomaticGainControl {
            target_level: fx_clamp(target_level, 0, FX_ONE),
            attack_time,
            release_time,
            current_gain: FX_ONE,
            envelope_follower: 0,
            sample_rate,
        }
    }

    /// Process a single sample: update the envelope follower toward the
    /// input's magnitude, smooth the gain toward the level that would meet
    /// the target, clamp it, and scale the input by it.  The output never
    /// exceeds ten times the input's magnitude.
    pub fn process_sample(&mut self, input: i64) -> (r: i64)
        requires
            old(self).wf(),
            mag(input as int) <= AGC_IN_CAP,
        ensures
            final(self).wf(),
            final(self).spec_target_level() == old(self).spec_target_level(),
            final(self).spec_attack_time() == old(self).spec_attack_time(),
            final(self).spec_release_time() == old(self).spec_release_time(),
            final(self).spec_sample_rate() == old(self).spec_sample_rate(),
            final(self).spec_envelope_follower() == spec_agc_follower(
                old(self).spec_envelope_follower() as int,
                mag(input as int),
                spec_agc_coeff(
                    old(self).spec_attack_time() as int,
                    old(self).spec_sample_rate() as int,
                ),
                spec_agc_coeff(
                    old(self).spec_release_time() as int,
                    old(self).spec_sample_rate() as int,
                ),
            ),
            final(self).spec_current_gain() == spec_agc_gain(
                old(self).spec_current_gain() as int,
                final(self).spec_envelope_follower() as int,
                old(self).spec_target_level() as int,
                spec_agc_coeff(
                    old(self).spec_attack_time() as int,
                    old(self).spec_sample_rate() as int,
                ),
                spec_agc_coeff(
                    old(self).spec_release_time() as int,
                    old(self).spec_sample_rate() as int,
                ),
            ),
            r == div_tz(input * final(self).spec_current_gain(), FX_ONE as int),
            mag(r as int) <= 10 * mag(input as int),
    {
        let input_level = crate::fixed::fx_mag(input);
        let attack_coeff = agc_coeff(self.attack_time, self.sample_rate);
        let release_coeff = agc_coeff(self.release_time, self.sample_rate);
        proof {
            assert(mag((self.envelope_follower - input_level) as int) <= 200_000_000_000int);
            assert(mag((self.envelope_follower - input_level) * attack_coeff)
                <= 200_000_000_000_000_000int && mag(
                (self.envelope_follower - input_level) * release_coeff,
            ) <= 200_000_000_000_000_000int) by (nonlinear_arith)
                requires
                    mag((self.envelope_follower - input_level) as int) <= 200_000_000_000int,
                    0 <= attack_coeff <= 1_000_000,
                    0 <= release_coeff <= 1_000_000,
            ;
            crate::fixed::lemma_scale_mag(
                (self.envelope_follower - input_level) as int,
                attack_coeff as int,
                mag((self.envelope_follower - input_level) as int),
                FX_ONE as int,
            );
            crate::fixed::lemma_scale_mag(
                (self.envelope_follower - input_level) as int,
                release_coeff as int,
                mag((self.envelope_follower - input_level) as int),
                FX_ONE as int,
            );
            crate::fixed::lemma_div_tz_mag(
                ((self.envelope_follower - input_level) * attack_coeff) as int,
                FX_ONE as int,
            );
            crate::fixed::lemma_div_tz_mag(
                ((self.envelope_follower - input_level) * release_coeff) as int,
                FX_ONE as int,
            );
        }
        let ghost f0 = self.envelope_follower as int;
        proof {
            assert(f0 - input_level <= 0 ==> (f0 - input_level) * attack_coeff <= 0 && (f0
                - input_level) * release_coeff <= 0) by (nonlinear_arith)
                requires
                    0 <= attack_coeff,
                    0 <= release_coeff,
            ;
            assert(f0 - input_level >= 0 ==> (f0 - input_level) * attack_coeff >= 0 && (f0
                - input_level) * release_coeff >= 0) by (nonlinear_arith)
                requires
                    0 <= attack_coeff,
                    0 <= release_coeff,
            ;
        }
        if input_level > self.envelope_follower {
            self.envelope_follower = input_level + fx_mul_div(
                self.envelope_follower - input_level,
                attack_coeff,
                FX_ONE,
            );
        } else {
            self.envelope_follower = input_level + fx_mul_div(
                self.envelope_follower - input_level,
                release_coeff,
                FX_ONE,
            );
        }
        proof {
            assert(0 <= self.envelope_follower <= AGC_IN_CAP);
        }
        let required_gain: i64 = if self.envelope_follower > 100 {
            proof {
                vstd::arithmetic::div_mod::lemma_div_pos_is_pos(
                    (self.target_level * FX_ONE) as int,
                    self.envelope_follower as int,
                );
                vstd::arithmetic::div_mod::lemma_div_is_ordered_by_denominator(
                    (self.target_level * FX_ONE) as int,
                    100,
                    self.envelope_follower as int,
                );
                crate::fixed::lemma_div_le(
                    (self.target_level * FX_ONE) as int,
                    1_000_000_000_000int,
                    100,
                );
            }
            fx_div(self.target_level * FX_ONE, self.envelope_follower)
        } else {
            FX_ONE
        };
        let gain_diff = required_gain - self.current_gain;
        let gain_coeff: i64 = if gain_diff > 0 {
            release_coeff
        } else {
            attack_coeff
        };
        proof {
            assert(mag(gain_diff as int) <= 20_000_000_000int);
            assert(mag(gain_diff * (FX_ONE - gain_coeff)) <= 20_000_000_000_000_000int)
                by (nonlinear_arith)
                requires
                    mag(gain_diff as int) <= 20_000_000_000int,
                    0 <= FX_ONE - gain_coeff <= 1_000_000,
            ;
            crate::fixed::lemma_scale_mag(
                gain_diff as int,
                (FX_ONE - gain_coeff) as int,
                mag(gain_diff as int),
                FX_ONE as int,
            );
            crate::fixed::lemma_div_tz_mag(
                (gain_diff * (FX_ONE - gain_coeff)) as int,
                FX_ONE as int,
            );
        }
        let smoothed = self.current_gain + fx_mul_div(gain_diff, FX_ONE - gain_coeff, FX_ONE);
        self.current_gain = fx_clamp(smoothed, AGC_GAIN_MIN, AGC_GAIN_MAX);
        proof {
            assert(mag(input * self.current_gain) <= 1_000_000_000_000_000_000int)
                by (nonlinear_arith)
                requires
                    mag(input as int) <= AGC_IN_CAP,
                    0 <= self.current_gain <= AGC_GAIN_MAX,
            ;
            crate::fixed::lemma_scale_mag(
                input as int,
                self.current_gain as int,
                mag(input as int),
                FX_ONE as int,
            );
            assert(mag(input as int) * self.current_gain <= mag(input as int) * (10 * FX_ONE))
                by (nonlinear_arith)
                requires
                    0 <= self.current_gain <= AGC_GAIN_MAX,
                    AGC_GAIN_MAX == 10 * FX_ONE,
                    0 <= mag(input as int),
            ;
            crate::fixed::lemma_div_le(
                mag(input as int) * self.current_gain,
                mag(input as int) * (10 * FX_ONE),
                FX_ONE as int,
            );
            assert(mag(input as int) * (10 * (FX_ONE as int)) == (FX_ONE as int) * (10 * mag(
                input as int,
            ))) by (nonlinear_arith);
            vstd::arithmetic::div_mod::lemma_div_multiples_vanish(
                10 * mag(input as int),
                FX_ONE as int,
            );
        }
        fx_mul_div(input, self.current_gain, FX_ONE)
    }
}

/// AGC wrapper for any source.
pub struct AGC<S: Source> {
    source: S,
    agc: AutomaticGainControl,
}

/// The follower a gain control reaches after one step on input `s`.
pub open spec fn spec_agc_next_follower(c: AutomaticGainControl, s: int) -> int {
    spec_agc_follower(
        c.spec_envelope_follower() as int,
        mag(s),
        spec_agc_coeff(c.spec_attack_time() as int, c.spec_sample_rate() as int),
        spec_agc_coeff(c.spec_release_time() as int, c.spec_sample_rate() as int),
    )
}

/// The gain a gain control reaches after one step on input `s`.
pub open spec fn spec_agc_next_gain(c: AutomaticGainControl, s: int) -> int {
    spec_agc_gain(
        c.spec_current_gain() as int,
        spec_agc_next_follower(c, s),
        c.spec_target_level() as int,
        spec_agc_coeff(c.spec_attack_time() as int, c.spec_sample_rate() as int),
        spec_agc_coeff(c.spec_release_time() as int, c.spec_sample_rate() as int),
    )
}

/// The sample a gain control yields for input `s`: the input scaled by the
/// stepped gain.
pub open spec fn spec_agc_next_output(c: AutomaticGainControl, s: int) -> int {
    div_tz(s * spec_agc_next_gain(c, s), FX_ONE as int)
}

impl<S: Source> AGC<S> {
    /// Create a new AGC effect at the library sample rate.
    pub fn new(source: S, target_level: i64, attack_time: i64, release_time: i64) -> (r: AGC<S>)
        requires
            source.inv(),
            0 <= source.bound() <= AGC_IN_CAP,
            0 <= attack_time <= AGC_TIME_MAX,
            0 <= release_time <= AGC_TIME_MAX,
        ensures
            r.inv(),
            r.remaining() == source.remaining(),
            r.bound() == 10 * source.bound(),
            r.spec_channels() == source.spec_channels(),
            r.spec_sample_rate() == source.spec_sample_rate(),
            r.spec_duration() == source.spec_duration(),
            r.spec_gain_control().spec_target_level() == spec_clamp(
                target_level as int,
                0,
                FX_ONE as int,
            ),
            r.spec_gain_control().spec_attack_time() == attack_time,
            r.spec_gain_control().spec_release_time() == release_time,
            r.spec_gain_control().spec_current_gain() == FX_ONE,
            r.spec_gain_control().spec_envelope_follower() == 0,
            r.spec_gain_control().spec_sample_rate() == SAMPLE_RATE,
            r.spec_source() == source,
    {
        AGC {
            source,
            agc: AutomaticGainControl::new(target_level, attack_time, release_time, SAMPLE_RATE),
        }
    }

    /// The inner gain-control state.
    pub closed spec fn spec_gain_control(&self) -> AutomaticGainControl {
        self.agc
    }

    /// The upstream source.
    pub closed spec fn spec_source(&self) -> S {
        self.source
    }

    /// The magnitude bound of the wrapped upstream source.
    pub open spec fn spec_source_bound(&self) -> int {
        self.spec_source().bound()
    }

    /// The upstream's next value, as the sample the gain control consumes.
    pub open spec fn spec_source_value(&self) -> i64 {
        self.spec_source().spec_next_value() as i64
    }

    /// Create a gentle AGC for musical content: fast attack, slow release.
    pub fn gentle(source: S) -> (r: AGC<S>)
        requires
            source.inv(),
            0 <= source.bound() <= AGC_IN_CAP,
        ensures
            r.inv(),
            r.remaining() == source.remaining(),
            r.bound() == 10 * source.bound(),
            r.spec_channels() == source.spec_channels(),
            r.spec_sample_rate() == source.spec_sample_rate(),
            r.spec_duration() == source.spec_duration(),
            r.spec_gain_control().spec_target_level() == 700_000,
            r.spec_gain_control().spec_attack_time() == 3_000,
            r.spec_gain_control().spec_release_time() == 100_000,
            r.spec_gain_control().spec_current_gain() == FX_ONE,
            r.spec_gain_control().spec_envelope_follower() == 0,
            r.spec_gain_control().spec_sample_rate() == SAMPLE_RATE,
            r.spec_source() == source,
    {
        AGC::new(source, 700_000, 3_000, 100_000)
    }

    /// Create a limiting AGC for preventing clipping: very fast attack,
    /// quick release.
    pub fn limiter(source: S) -> (r: AGC<S>)
        requires
            source.inv(),
            0 <= source.bound() <= AGC_IN_CAP,
        ensures
            r.inv(),
            r.remaining() == source.remaining(),
            r.bound() == 10 * source.bound(),
            r.spec_channels() == source.spec_channels(),
            r.spec_sample_rate() == source.spec_sample_rate(),
            r.spec_duration() == source.spec_duration(),
            r.spec_gain_control().spec_target_level() == 950_000,
            r.spec_gain_control().spec_attack_time() == 1_000,
            r.spec_gain_control().spec_release_time() == 50_000,
            r.spec_gain_control().spec_current_gain() == FX_ONE,
            r.spec_gain_control().spec_envelope_follower() == 0,
            r.spec_gain_control().spec_sample_rate() == SAMPLE_RATE,
            r.spec_source() == source,
    {
        AGC::new(source, 950_000, 1_000, 50_000)
    }
}

impl<S: Source> Source for AGC<S> {
    closed spec fn inv(&self) -> bool {
        &&& self.source.inv()
        &&& self.agc.wf()
        &&& 0 <= self.source.bound() <= AGC_IN_CAP
    }

    open spec fn remaining(&self) -> nat {
        self.spec_source().remaining()
    }

    open spec fn bound(&self) -> int {
        10 * self.spec_source().bound()
    }

    open spec fn spec_channels(&self) -> u16 {
        self.spec_source().spec_channels()
    }

    open spec fn spec_sample_rate(&self) -> u32 {
        self.spec_source().spec_sample_rate()
    }

    open spec fn spec_duration(&self) -> i64 {
        self.spec_source().spec_duration()
    }

    open spec fn spec_next_value(&self) -> int {
        spec_agc_next_output(self.spec_gain_control(), self.spec_source_value() as int)
    }

    fn next(&mut self) -> (r: Option<i64>)
        ensures
            final(self).spec_gain_control().spec_target_level() == old(
                self,
            ).spec_gain_control().spec_target_level(),
            final(self).spec_gain_control().spec_attack_time() == old(
                self,
            ).spec_gain_control().spec_attack_time(),
            final(self).spec_gain_control().spec_release_time() == old(
                self,
            ).spec_gain_control().spec_release_time(),
            final(self).spec_gain_control().spec_sample_rate() == old(
                self,
            ).spec_gain_control().spec_sample_rate(),
            r is Some ==> final(self).spec_gain_control().spec_envelope_follower()
                == spec_agc_next_follower(
                old(self).spec_gain_control(),
                old(self).spec_source_value() as int,
            ),
            r is Some ==> final(self).spec_gain_control().spec_current_gain()
                == spec_agc_next_gain(
                old(self).spec_gain_control(),
                old(self).spec_source_value() as int,
            ),
            r is None ==> final(self).spec_gain_control() == old(self).spec_gain_control(),
    {
        match self.source.next() {
            None => None,
            Some(s) => {
                let out = self.agc.process_sample(s);
                proof {
                    assert(10 * mag(s as int) <= 10 * self.source.bound()) by (nonlinear_arith)
                        requires
                            mag(s as int) <= self.source.bound(),
                    ;
                }
                Some(out)
            },
        }
    }

    fn channels(&self) -> (c: u16) {
        self.source.channels()
    }

    fn sample_rate(&self) -> (sr: u32) {
        self.source.sample_rate()
    }

    fn total_duration(&self) -> (d: i64) {
        self.source.total_duration()
    }
}


/// The silence threshold below which normalization is a no-op: 0.0001 in
/// millionths.
pub const NORM_SILENCE: i64 = 100;

/// Largest sample magnitude normalization accepts: one hundred units,
/// comfortably above every output bound an effect chain of this library
/// can produce (the gain control tops out at ten times the headroom).
pub const NORM_INPUT_CAP: i64 = 100_000_000;

/// The peak level of a buffer: the largest sample magnitude, zero for an
/// empty buffer.
pub open spec fn spec_peak(s: Seq<i64>) -> int
    decreases s.len(),
{
    if s.len() == 0 {
        0
    } else {
        let rest = spec_peak(s.drop_last());
        if mag(s.last() as int) > rest {
            mag(s.last() as int)
        } else {
            rest
        }
    }
}

/// Every sample magnitude is at most the peak, and the peak is nonnegative.
pub proof fn lemma_peak_ge(s: Seq<i64>, i: int)
    requires
        0 <= i < s.len(),
    ensures
        mag(s[i] as int) <= spec_peak(s),
        spec_peak(s) >= 0,
    decreases s.len(),
{
    lemma_peak_nonneg(s);
    if i < s.len() - 1 {
        lemma_peak_ge(s.drop_last(), i);
    }
}

/// The peak is nonnegative.
pub proof fn lemma_peak_nonneg(s: Seq<i64>)
    ensures
        spec_peak(s) >= 0,
    decreases s.len(),
{
    if s.len() > 0 {
        lemma_peak_nonneg(s.drop_last());
    }
}

/// A bound on every sample magnitude bounds the peak.
pub proof fn lemma_peak_le(s: Seq<i64>, b: int)
    requires
        forall|i: int| 0 <= i < s.len() ==> mag(#[trigger] s[i] as int) <= b,
        0 <= b,
    ensures
        spec_peak(s) <= b,
    decreases s.len(),
{
    if s.len() > 0 {
        assert(forall|i: int| 0 <= i < s.drop_last().len() ==> mag(
            #[trigger] s.drop_last()[i] as int,
        ) <= b);
        lemma_peak_le(s.drop_last(), b);
    }
}

/// A nonempty buffer attains its peak at some index.
pub proof fn lemma_peak_attained(s: Seq<i64>) -> (i: int)
    requires
        s.len() > 0,
    ensures
        0 <= i < s.len(),
        mag(s[i] as int) == spec_peak(s),
    decreases s.len(),
{
    lemma_peak_nonneg(s.drop_last());
    if mag(s.last() as int) > spec_peak(s.drop_last()) {
        s.len() - 1
    } else {
        if s.len() == 1 {
            assert(spec_peak(s) == 0 && mag(s[0] as int) == 0);
            0
        } else {
            let i = lemma_peak_attained(s.drop_last());
            i
        }
    }
}

/// The gain normalization applies for a peak and target: the target scaled
/// by the unit, divided (truncating) by the peak.
pub open spec fn spec_norm_gain(peak: int, target: int) -> int {
    div_tz(target * (FX_ONE as int), peak)
}

/// One sample after normalization.
pub open spec fn spec_norm_sample(x: int, gain: int) -> int {
    div_tz(x * gain, FX_ONE as int)
}

/// Normalize audio samples in place to a target peak level: find the
/// largest magnitude; when it is above the silence threshold, scale every
/// sample by `target_peak / peak`.  Silence is left untouched.  After
/// scaling, the new peak equals the old peak mapped through the gain,
/// which lands within a ten-thousandth below the target.
pub fn normalize_samples(samples: &mut Vec<i64>, target_peak: i64)
    requires
        0 <= target_peak <= FX_ONE,
        forall|i: int| 0 <= i < old(samples)@.len() ==> mag(#[trigger] old(samples)@[i] as int)
            <= NORM_INPUT_CAP,
    ensures
        final(samples)@.len() == old(samples)@.len(),
        spec_peak(old(samples)@) <= NORM_SILENCE ==> final(samples)@ == old(samples)@,
        spec_peak(old(samples)@) > NORM_SILENCE ==> {
            let gain = spec_norm_gain(spec_peak(old(samples)@), target_peak as int);
            &&& forall|i: int| 0 <= i < old(samples)@.len() ==> final(samples)@[i]
                == spec_norm_sample(#[trigger] old(samples)@[i] as int, gain)
            &&& spec_peak(final(samples)@) == spec_norm_sample(spec_peak(old(samples)@), gain)
            &&& target_peak - 100 <= spec_peak(final(samples)@) <= target_peak
        },
{
    let ghost orig = samples@;
    let n = samples.len();
    let mut peak: i64 = 0;
    let mut i: usize = 0;
    while i < n
        invariant
            0 <= i <= n,
            n == samples@.len(),
            samples@ == orig,
            forall|j: int| 0 <= j < n ==> mag(#[trigger] samples@[j] as int) <= NORM_INPUT_CAP,
            peak == spec_peak(orig.take(i as int)),
            0 <= peak <= NORM_INPUT_CAP,
        decreases n - i,
    {
        proof {
            lemma_peak_nonneg(orig.take(i as int));
            assert(orig.take(i + 1 as int).drop_last() =~= orig.take(i as int));
        }
        let m = crate::fixed::fx_mag(samples[i]);
        if m > peak {
            peak = m;
        }
        i = i + 1;
    }
    proof {
        assert(orig.take(n as int) =~= orig);
    }
    if peak > NORM_SILENCE {
        proof {
            vstd::arithmetic::div_mod::lemma_div_pos_is_pos(
                (target_peak * FX_ONE) as int,
                peak as int,
            );
            vstd::arithmetic::div_mod::lemma_div_is_ordered_by_denominator(
                (target_peak * FX_ONE) as int,
                NORM_SILENCE as int,
                peak as int,
            );
            crate::fixed::lemma_div_le(
                (target_peak * FX_ONE) as int,
                1_000_000_000_000int,
                NORM_SILENCE as int,
            );
        }
        let gain = fx_div(target_peak * FX_ONE, peak);
        let ghost g = gain as int;
        let mut k: usize = 0;
        while k < n
            invariant
                0 <= k <= n,
                n == samples@.len(),
                0 <= gain <= 10_000_000_000,
                g == gain as int,
                forall|j: int| k <= j < n ==> #[trigger] samples@[j] == orig[j],
                forall|j: int| 0 <= j < n ==> mag(#[trigger] orig[j] as int) <= NORM_INPUT_CAP,
                forall|j: int| 0 <= j < k ==> samples@[j] == spec_norm_sample(
                    #[trigger] orig[j] as int,
                    g,
                ) as i64,
            decreases n - k,
        {
            let v = samples[k];
            proof {
                assert(samples@[k as int] == orig[k as int]);
                assert(mag(v * gain) <= 1_000_000_000_000_000_000int) by (nonlinear_arith)
                    requires
                        mag(v as int) <= NORM_INPUT_CAP,
                        0 <= gain <= 10_000_000_000,
                        NORM_INPUT_CAP == 100_000_000,
                ;
            }
            let scaled = fx_mul_div(v, gain, FX_ONE);
            samples.set(k, scaled);
            k = k + 1;
        }
        proof {
            lemma_norm_peak(orig, samples@, peak as int, target_peak as int);
        }
    }
}

/// Peak normalize a buffer of samples, returning the scaled copy.
pub fn peak_normalize(samples: Vec<i64>, target_peak: i64) -> (r: Vec<i64>)
    requires
        0 <= target_peak <= FX_ONE,
        forall|i: int| 0 <= i < samples@.len() ==> mag(#[trigger] samples@[i] as int)
            <= NORM_INPUT_CAP,
    ensures
        r@.len() == samples@.len(),
        spec_peak(samples@) <= NORM_SILENCE ==> r@ == samples@,
        spec_peak(samples@) > NORM_SILENCE ==> {
            let gain = spec_norm_gain(spec_peak(samples@), target_peak as int);
            &&& forall|i: int| 0 <= i < samples@.len() ==> r@[i] == spec_norm_sample(
                #[trigger] samples@[i] as int,
                gain,
            )
            &&& spec_peak(r@) == spec_norm_sample(spec_peak(samples@), gain)
            &&& target_peak - 100 <= spec_peak(r@) <= target_peak
        },
{
    let mut normalized = samples;
    normalize_samples(&mut normalized, target_peak);
    normalized
}

/// After scaling by the normalization gain, the peak is the old peak
/// mapped through the gain, and it lands within a ten-thousandth below
/// the target.
proof fn lemma_norm_peak(orig: Seq<i64>, scaled: Seq<i64>, peak: int, target: int)
    requires
        orig.len() == scaled.len(),
        NORM_SILENCE < peak <= NORM_INPUT_CAP,
        0 <= target <= FX_ONE,
        peak == spec_peak(orig),
        forall|j: int| 0 <= j < orig.len() ==> mag(#[trigger] orig[j] as int) <= NORM_INPUT_CAP,
        forall|j: int| 0 <= j < orig.len() ==> scaled[j] == spec_norm_sample(
            #[trigger] orig[j] as int,
            spec_norm_gain(peak, target),
        ) as i64,
        0 <= spec_norm_gain(peak, target) <= 10_000_000_000,
    ensures
        spec_peak(scaled) == spec_norm_sample(peak, spec_norm_gain(peak, target)),
        target - 100 <= spec_peak(scaled) <= target,
        forall|j: int| 0 <= j < scaled.len() ==> #[trigger] scaled[j] as int == spec_norm_sample(
            orig[j] as int,
            spec_norm_gain(peak, target),
        ),
{
    let one = FX_ONE as int;
    let g = spec_norm_gain(peak, target);
    vstd::arithmetic::div_mod::lemma_div_pos_is_pos(target * one, peak);
    let p2 = spec_norm_sample(peak, g);
    crate::fixed::lemma_div_tz_mag(peak * g, one);
    assert(peak * g >= 0) by (nonlinear_arith)
        requires
            peak > 0,
            g >= 0,
    ;
    // Every scaled sample equals its mapped value and is within the
    // mapped peak: the map fits the sample type, so the recorded value is
    // the mathematical one.
    assert forall|j: int| 0 <= j < scaled.len() implies mag(#[trigger] scaled[j] as int) <= p2
        && scaled[j] as int == spec_norm_sample(orig[j] as int, g) by {
        lemma_peak_ge(orig, j);
        crate::fixed::lemma_div_tz_mag(orig[j] * g, one);
        assert(mag(orig[j] * g) == mag(orig[j] as int) * g) by (nonlinear_arith)
            requires
                g >= 0,
        ;
        assert(mag(orig[j] as int) * g <= peak * g) by (nonlinear_arith)
            requires
                mag(orig[j] as int) <= peak,
                g >= 0,
        ;
        crate::fixed::lemma_div_le(mag(orig[j] as int) * g, peak * g, one);
        assert(peak * g <= 1_000_000_000_000_000_000int) by (nonlinear_arith)
            requires
                0 <= peak <= 100_000_000,
                0 <= g <= 10_000_000_000,
        ;
        crate::fixed::lemma_div_le(peak * g, 1_000_000_000_000_000_000int, one);
        assert(1_000_000_000_000_000_000int / 1_000_000int == 1_000_000_000_000int) by {
            vstd::arithmetic::div_mod::lemma_fundamental_div_mod_converse(
                1_000_000_000_000_000_000int,
                1_000_000int,
                1_000_000_000_000int,
                0int,
            );
        }
    }
    // The mapped peak is attained where the original peak was.
    let w = lemma_peak_attained(orig);
    assert(mag(orig[w] * g) == mag(orig[w] as int) * g) by (nonlinear_arith)
        requires
            g >= 0,
    ;
    crate::fixed::lemma_div_tz_mag(orig[w] * g, one);
    crate::fixed::lemma_div_tz_mag(peak * g, one);
    assert(mag(scaled[w] as int) == p2);
    assert(p2 >= 0);
    lemma_peak_le(scaled, p2);
    lemma_peak_ge(scaled, w);
    // The mapped peak lands within one millionth below the target.
    vstd::arithmetic::div_mod::lemma_fundamental_div_mod(target * one, peak);
    vstd::arithmetic::div_mod::lemma_mod_bound(target * one, peak);
    assert(peak * g <= target * one);
    assert(peak * g >= target * one - peak + 1);
    assert(target * one - peak + 1 >= (target - 100) * one + 1) by (nonlinear_arith)
        requires
            peak <= 100 * one,
    ;
    crate::fixed::lemma_div_le((target - 100) * one + 1, peak * g, one);
    crate::fixed::lemma_div_le(peak * g, target * one, one);
    vstd::arithmetic::div_mod::lemma_div_multiples_vanish(target, one);
    vstd::arithmetic::div_mod::lemma_div_multiples_vanish(target - 100, one);
    assert(one * target == target * one) by (nonlinear_arith);
    assert(one * (target - 100) == (target - 100) * one) by (nonlinear_arith);
    assert(((target - 100) * one + 1) / one >= target - 100) by {
        crate::fixed::lemma_div_le((target - 100) * one, (target - 100) * one + 1, one);
    }
}

/// Normalizing a buffer whose peak already equals the target changes
/// nothing: the gain is exactly one, and scaling by one is the identity.
/// In particular normalizing twice to the same target is the same as
/// normalizing once whenever the first pass lands exactly on the target.
pub proof fn lemma_normalize_identity(s: Seq<i64>, target: i64)
    requires
        NORM_SILENCE < target <= FX_ONE,
        spec_peak(s) == target,
    ensures
        spec_norm_gain(spec_peak(s), target as int) == FX_ONE,
        forall|i: int| 0 <= i < s.len() ==> spec_norm_sample(
            #[trigger] s[i] as int,
            spec_norm_gain(spec_peak(s), target as int),
        ) == s[i],
{
    let one = FX_ONE as int;
    vstd::arithmetic::div_mod::lemma_div_multiples_vanish(one, target as int);
    assert(target * one == (target as int) * one) by (nonlinear_arith);
    assert(spec_norm_gain(target as int, target as int) == one);
    assert forall|i: int| 0 <= i < s.len() implies spec_norm_sample(
        #[trigger] s[i] as int,
        spec_norm_gain(spec_peak(s), target as int),
    ) == s[i] by {
        if s[i] >= 0 {
            vstd::arithmetic::div_mod::lemma_div_multiples_vanish(s[i] as int, one);
            assert(s[i] * one == one * (s[i] as int)) by (nonlinear_arith);
        } else {
            vstd::arithmetic::div_mod::lemma_div_multiples_vanish(-(s[i] as int), one);
            assert(-(s[i] * one) == one * (-(s[i] as int))) by (nonlinear_arith);
        }
    }
}

} // verus!