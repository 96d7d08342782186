//! The pull-based sample stream capability.  A source yields one
//! fixed-point sample per pull until it is exhausted, never changes its
//! stream metadata while doing so, and keeps every sample within its
//! declared magnitude bound.

use vstd::prelude::*;
use crate::fixed::mag;

verus! {

/// A finite, pull-based stream of fixed-point audio samples.  Leaf
/// generators (oscillators) and decorating effects all implement this
/// capability; a decorator owns exactly one upstream source.
pub trait Source: Sized {
    /// Well-formedness of the stream state, preserved by every pull.
    spec fn inv(&self) -> bool;

    /// How many samples the stream will still yield.
    spec fn remaining(&self) -> nat;

    /// A bound on the magnitude of every sample the stream can yield.
    spec fn bound(&self) -> int;

    /// The stream's channel count.
    spec fn spec_channels(&self) -> u16;

    /// The stream's sample rate in Hz.
    spec fn spec_sample_rate(&self) -> u32;

    /// The stream's reported total duration, in fixed-point seconds.
    spec fn spec_duration(&self) -> i64;

    /// The value the next pull yields, while samples remain: a leaf
    /// computes it from its own state, a decorator from its state and its
    /// upstream's next value, so a whole effect chain's output is a
    /// function of the chain's state.
    spec fn spec_next_value(&self) -> int;

    /// Pull the next sample: `Some` of exactly `spec_next_value` while
    /// samples remain, counting `remaining` down one per pull, with
    /// unchanged metadata and the sample within the stream's bound.
    fn next(&mut self) -> (r: Option<i64>)
        requires
            old(self).inv(),
        ensures
            final(self).inv(),
            final(self).bound() == old(self).bound(),
            final(self).spec_channels() == old(self).spec_channels(),
            final(self).spec_sample_rate() == old(self).spec_sample_rate(),
            final(self).spec_duration() == old(self).spec_duration(),
            r is Some <==> old(self).remaining() > 0,
            r is Some ==> final(self).remaining() + 1 == old(self).remaining(),
            r is None ==> final(self).remaining() == old(self).remaining(),
            r matches Some(v) ==> mag(v as int) <= old(self).bound(),
            r matches Some(v) ==> v as int == old(self).spec_next_value(),
    ;

    /// The channel count, as executable metadata.
    fn channels(&self) -> (c: u16)
        requires
            self.inv(),
        ensures
            c == self.spec_channels(),
    ;

    /// The sample rate in Hz, as executable metadata.
    fn sample_rate(&self) -> (sr: u32)
        requires
            self.inv(),
        ensures
            sr == self.spec_sample_rate(),
    ;

    /// The reported total duration in fixed-point seconds.
    fn total_duration(&self) -> (d: i64)
        requires
            self.inv(),
        ensures
            d == self.spec_duration(),
    ;
}

/// Materialize a stream into a buffer: pulls until exhaustion, yielding
/// exactly the stream's remaining count of samples, each within its bound.
pub fn collect_samples<S: Source>(source: &mut S) -> (r: Vec<i64>)
    requires
        old(source).inv(),
    ensures
        final(source).inv(),
        final(source).remaining() == 0,
        r@.len() == old(source).remaining(),
        forall|i: int| 0 <= i < r@.len() ==> mag(#[trigger] r@[i] as int) <= old(source).bound(),
{
    let mut r: Vec<i64> = Vec::new();
    loop
        invariant
            source.inv(),
            source.bound() == old(source).bound(),
            r@.len() + source.remaining() == old(source).remaining(),
            forall|i: int| 0 <= i < r@.len() ==> mag(#[trigger] r@[i] as int) <= old(
                source,
            ).bound(),
        decreases source.remaining(),
    {
        match source.next() {
            Some(s) => {
                r.push(s);
            },
            None => {
                return r;
            },
        }
    }
}

} // verus!
