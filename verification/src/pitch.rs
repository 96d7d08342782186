//! Equal-temperament pitch arithmetic in fixed point.  The twelve semitone
//! ratios `2^(k/12)` are tabulated in millionths at the bottom of a
//! five-octave span and extended upward by exact doubling, so every ratio
//! in the span is a whole number of millionths and the table is strictly
//! increasing.  Fractional semitones interpolate linearly between adjacent
//! whole-semitone ratios.

use vstd::prelude::*;
use crate::fixed::{fx_div, FX_ONE};

verus! {

/// Largest semitone offset (in either direction) the ratio helpers accept:
/// five octaves.
pub const SEMITONE_SPAN: i64 = 60;

/// The ratio `2^((k - 60)/12)` in millionths, for `0 <= k < 12`: the bottom
/// octave of the span, five octaves below the unit ratio.
pub open spec fn spec_bottom_ratio(k: int) -> int {
    if k == 0 {
        31250
    } else if k == 1 {
        33108
    } else if k == 2 {
        35077
    } else if k == 3 {
        37163
    } else if k == 4 {
        39373
    } else if k == 5 {
        41714
    } else if k == 6 {
        44194
    } else if k == 7 {
        46822
    } else if k == 8 {
        49606
    } else if k == 9 {
        52556
    } else if k == 10 {
        55681
    } else {
        58992
    }
}

/// The ratio `2^(s/12)` in millionths for a whole number of semitones in
/// `[-SEMITONE_SPAN, SEMITONE_SPAN]`: the bottom octave is tabulated and
/// every octave above it doubles exactly.
pub open spec fn spec_ratio_of_semitones(s: int) -> int
    decreases s + SEMITONE_SPAN,
{
    if s < -(SEMITONE_SPAN as int) + 12 {
        spec_bottom_ratio(s + SEMITONE_SPAN)
    } else {
        2 * spec_ratio_of_semitones(s - 12)
    }
}

/// The whole-semitone ratio is strictly increasing and spans
/// `[31250, 32 * FX_ONE]`, with the unit ratio at offset zero.
pub proof fn lemma_ratio_of_semitones_bounds(s: int)
    requires
        -(SEMITONE_SPAN as int) <= s <= SEMITONE_SPAN,
    ensures
        31250 <= spec_ratio_of_semitones(s) <= 32 * FX_ONE,
        s < SEMITONE_SPAN ==> spec_ratio_of_semitones(s) < spec_ratio_of_semitones(s + 1),
        s < SEMITONE_SPAN ==> 8 * (spec_ratio_of_semitones(s + 1) - spec_ratio_of_semitones(s))
            <= spec_ratio_of_semitones(s),
        s <= -53 ==> spec_ratio_of_semitones(s) <= 46875,
        s <= -41 ==> spec_ratio_of_semitones(s) <= 93750,
        s <= -29 ==> spec_ratio_of_semitones(s) <= 187500,
        s <= -17 ==> spec_ratio_of_semitones(s) <= 375000,
        s <= -5 ==> spec_ratio_of_semitones(s) <= 750000,
        s <= 7 ==> spec_ratio_of_semitones(s) <= 1500000,
        s <= -48 ==> spec_ratio_of_semitones(s) <= 62500,
        s <= -36 ==> spec_ratio_of_semitones(s) <= 125000,
        s <= -24 ==> spec_ratio_of_semitones(s) <= 250000,
        s <= -12 ==> spec_ratio_of_semitones(s) <= 500000,
        s <= 0 ==> spec_ratio_of_semitones(s) <= FX_ONE,
        s <= 12 ==> spec_ratio_of_semitones(s) <= 2000000,
        s <= 24 ==> spec_ratio_of_semitones(s) <= 4000000,
        s <= 36 ==> spec_ratio_of_semitones(s) <= 8000000,
        s <= 48 ==> spec_ratio_of_semitones(s) <= 16000000,
        s >= -48 ==> spec_ratio_of_semitones(s) >= 62500,
        s >= -36 ==> spec_ratio_of_semitones(s) >= 125000,
        s >= -24 ==> spec_ratio_of_semitones(s) >= 250000,
        s >= -12 ==> spec_ratio_of_semitones(s) >= 500000,
        s >= 0 ==> spec_ratio_of_semitones(s) >= FX_ONE,
        s == -48 ==> spec_ratio_of_semitones(s) == 62500,
        s == -36 ==> spec_ratio_of_semitones(s) == 125000,
        s == -24 ==> spec_ratio_of_semitones(s) == 250000,
        s == -12 ==> spec_ratio_of_semitones(s) == 500000,
        s == 0 ==> spec_ratio_of_semitones(s) == FX_ONE,
    decreases s + SEMITONE_SPAN,
{
    if s >= -(SEMITONE_SPAN as int) + 12 {
        lemma_ratio_of_semitones_bounds(s - 12);
    }
    if s < SEMITONE_SPAN && s + 1 >= -(SEMITONE_SPAN as int) + 12 {
        lemma_ratio_of_semitones_bounds(s - 11);
    }
}

/// Table lookup for the bottom octave.
fn bottom_ratio(k: i64) -> (r: i64)
    requires
        0 <= k < 12,
    ensures
        r == spec_bottom_ratio(k as int),
{
    if k == 0 {
        31250
    } else if k == 1 {
        33108
    } else if k == 2 {
        35077
    } else if k == 3 {
        37163
    } else if k == 4 {
        39373
    } else if k == 5 {
        41714
    } else if k == 6 {
        44194
    } else if k == 7 {
        46822
    } else if k == 8 {
        49606
    } else if k == 9 {
        52556
    } else if k == 10 {
        55681
    } else {
        58992
    }
}

/// The ratio `2^(s/12)` for a whole number of semitones `s`, in millionths.
pub fn ratio_of_semitones(s: i64) -> (r: i64)
    requires
        -SEMITONE_SPAN <= s <= SEMITONE_SPAN,
    ensures
        r == spec_ratio_of_semitones(s as int),
        31250 <= r <= 32 * FX_ONE,
        s <= 7 ==> r <= 1500000,
    decreases s + SEMITONE_SPAN,
{
    proof {
        lemma_ratio_of_semitones_bounds(s as int);
    }
    if s < -SEMITONE_SPAN + 12 {
        bottom_ratio(s + SEMITONE_SPAN)
    } else {
        let inner = ratio_of_semitones(s - 12);
        2 * inner
    }
}

/// The ratio `2^(p / (12 * FX_ONE))` for a fixed-point semitone offset `p`:
/// the whole-semitone ratio at `floor(p)`, interpolated linearly towards the
/// next semitone by the fractional part.
pub open spec fn spec_pitch_ratio(p: int) -> int {
    let s = p / (FX_ONE as int);
    let f = p % (FX_ONE as int);
    let lo = spec_ratio_of_semitones(s);
    let hi = spec_ratio_of_semitones(s + 1);
    lo + ((hi - lo) * f) / (FX_ONE as int)
}

/// Fixed-point pitch offset (in semitones) to frequency ratio.
pub fn pitch_ratio(p: i64) -> (r: i64)
    requires
        -SEMITONE_SPAN * FX_ONE <= p < SEMITONE_SPAN * FX_ONE,
    ensures
        r == spec_pitch_ratio(p as int),
        31250 <= r <= 32 * FX_ONE,
        p >= 0 ==> r >= FX_ONE,
        p <= 12 * FX_ONE ==> r <= 4_000_000,
        p < 11 * FX_ONE ==> r <= 2_000_000,
{
    let one: i64 = FX_ONE;
    let s: i64 = if p >= 0 {
        proof {
            vstd::arithmetic::div_mod::lemma_fundamental_div_mod(p as int, one as int);
            vstd::arithmetic::div_mod::lemma_remainder_lower(p as int, one as int);
            vstd::arithmetic::div_mod::lemma_remainder_upper(p as int, one as int);
        }
        p / one
    } else {
        let m: i64 = -p;
        let q = (m + one - 1) / one;
        proof {
            vstd::arithmetic::div_mod::lemma_fundamental_div_mod((m + one - 1) as int, one as int);
            vstd::arithmetic::div_mod::lemma_remainder_lower((m + one - 1) as int, one as int);
            vstd::arithmetic::div_mod::lemma_remainder_upper((m + one - 1) as int, one as int);
            let r = (m + one - 1) % (one as int);
            assert(p == one * (-q as int) + (one - 1 - r));
            assert(0 <= one - 1 - r < one);
            vstd::arithmetic::div_mod::lemma_fundamental_div_mod_converse(
                p as int,
                one as int,
                -q as int,
                one - 1 - r,
            );
        }
        -q
    };
    proof {
        assert(s == p as int / one as int);
        assert(s * one <= p < s * one + one) by {
            vstd::arithmetic::div_mod::lemma_fundamental_div_mod(p as int, one as int);
            vstd::arithmetic::div_mod::lemma_mod_bound(p as int, one as int);
        }
    }
    proof {
        assert(-60 <= s < 60) by {
            if s >= 60 {
                vstd::arithmetic::mul::lemma_mul_inequality(60, s as int, one as int);
            }
            if s < -60 {
                vstd::arithmetic::mul::lemma_mul_inequality(s as int, -61, one as int);
            }
        }
    }
    let f: i64 = p - s * one;
    proof {
        vstd::arithmetic::div_mod::lemma_fundamental_div_mod(p as int, one as int);
        assert(f == p as int % one as int);
        lemma_ratio_of_semitones_bounds(s as int);
        lemma_ratio_of_semitones_bounds(s as int + 1);
    }
    let lo = ratio_of_semitones(s);
    let hi = ratio_of_semitones(s + 1);
    proof {
        assert(0 <= (hi - lo) * f <= 4000000000000int) by (nonlinear_arith)
            requires
                0 <= hi - lo <= 4000000,
                0 <= f < 1000000,
        ;
    }
    let interp = fx_div((hi - lo) * f, one);
    proof {
        crate::fixed::lemma_scale_mag((hi - lo) as int, f as int, (hi - lo) as int, one as int);
        crate::fixed::lemma_div_tz_mag(((hi - lo) * f) as int, one as int);
        assert((hi - lo) * f >= 0) by (nonlinear_arith)
            requires
                hi >= lo,
                f >= 0,
        ;
    }
    lo + interp
}

} // verus!
