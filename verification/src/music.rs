//! Musical theory components for jingle generation: notes with semitone
//! arithmetic, scales, chords, chord progressions, melodies and rhythm
//! patterns.  Frequencies and durations are fixed-point millionths.

use vstd::prelude::*;
use crate::fixed::{div_tz, FX_ONE};
use crate::pitch::{ratio_of_semitones, spec_ratio_of_semitones, lemma_ratio_of_semitones_bounds};

verus! {

/// Reference frequency of the note A in octave 4, in millionths of a Hz.
pub const A4_FREQUENCY_FX: i64 = 440_000_000;

/// Lowest frequency counted as nearest to the note A within its octave:
/// `440 * 2^(-1/24)` Hz, in millionths.
pub const NOTE_BAND_LOW: i64 = 427_474_054;

/// Musical notes with semitone calculations.
#[derive(Clone, Copy, Debug, PartialEq, Eq, Structural)]
pub enum Note {
    C,
    CSharp,
    D,
    DSharp,
    E,
    F,
    FSharp,
    G,
    GSharp,
    A,
    ASharp,
    B,
}

/// Semitone offset of a note from A in the same octave.
pub open spec fn spec_semitone_offset(n: Note) -> int {
    match n {
        Note::C => -9,
        Note::CSharp => -8,
        Note::D => -7,
        Note::DSharp => -6,
        Note::E => -5,
        Note::F => -4,
        Note::FSharp => -3,
        Note::G => -2,
        Note::GSharp => -1,
        Note::A => 0,
        Note::ASharp => 1,
        Note::B => 2,
    }
}

/// The note `k` semitones above A, for `0 <= k < 12`.
pub open spec fn spec_note_of_index(k: int) -> Note {
    if k == 0 {
        Note::A
    } else if k == 1 {
        Note::ASharp
    } else if k == 2 {
        Note::B
    } else if k == 3 {
        Note::C
    } else if k == 4 {
        Note::CSharp
    } else if k == 5 {
        Note::D
    } else if k == 6 {
        Note::DSharp
    } else if k == 7 {
        Note::E
    } else if k == 8 {
        Note::F
    } else if k == 9 {
        Note::FSharp
    } else if k == 10 {
        Note::G
    } else {
        Note::GSharp
    }
}

/// The note reached from `root` by `interval` semitones, folded into one
/// octave.
pub open spec fn spec_note_at(root: Note, interval: int) -> Note {
    spec_note_of_index((spec_semitone_offset(root) + interval + 120) % 12)
}

/// Frequency of `n` in octave `octave`: the A4 reference scaled by the
/// equal-temperament ratio of the note's semitone distance from A4.
pub open spec fn spec_note_frequency(n: Note, octave: int) -> int {
    let s = spec_semitone_offset(n) + (octave - 4) * 12;
    div_tz(A4_FREQUENCY_FX * spec_ratio_of_semitones(s), FX_ONE as int)
}

impl Note {
    /// Get the semitone offset from A4.
    pub fn semitone_offset(&self) -> (r: i32)
        ensures
            r == spec_semitone_offset(*self),
    {
        match self {
            Note::C => -9,
            Note::CSharp => -8,
            Note::D => -7,
            Note::DSharp => -6,
            Note::E => -5,
            Note::F => -4,
            Note::FSharp => -3,
            Note::G => -2,
            Note::GSharp => -1,
            Note::A => 0,
            Note::ASharp => 1,
            Note::B => 2,
        }
    }

    /// Calculate the frequency for this note in a given octave, in
    /// millionths of a Hz.
    pub fn frequency(&self, octave: i32) -> (r: i64)
        requires
            0 <= octave <= 8,
        ensures
            r == spec_note_frequency(*self, octave as int),
            13_750_000 <= r <= 14_080_000_000,
            octave <= 5 ==> r <= 2_000_000_000,
            octave <= 6 ==> r <= 4_000_000_000,
    {
        let offset = self.semitone_offset();
        let s: i64 = offset as i64 + ((octave as i64) - 4) * 12;
        let ratio = ratio_of_semitones(s);
        proof {
            lemma_ratio_of_semitones_bounds(s as int);
            if octave <= 5 {
                assert(A4_FREQUENCY_FX * ratio <= 440_000_000 * 4_000_000int)
                    by (nonlinear_arith)
                    requires
                        0 < ratio <= 4_000_000,
                ;
                crate::fixed::lemma_div_tz_mag((A4_FREQUENCY_FX * ratio) as int, FX_ONE as int);
                crate::fixed::lemma_div_le((A4_FREQUENCY_FX * ratio) as int,
                    440_000_000 * 4_000_000int, FX_ONE as int);
                assert(1_760_000_000_000_000int / 1_000_000int == 1_760_000_000int) by {
                    vstd::arithmetic::div_mod::lemma_fundamental_div_mod_converse(
                        1_760_000_000_000_000int,
                        1_000_000int,
                        1_760_000_000int,
                        0int,
                    );
                }
            }
            if octave <= 6 {
                assert(A4_FREQUENCY_FX * ratio <= 440_000_000 * 8_000_000int)
                    by (nonlinear_arith)
                    requires
                        0 < ratio <= 8_000_000,
                ;
                crate::fixed::lemma_div_tz_mag((A4_FREQUENCY_FX * ratio) as int, FX_ONE as int);
                crate::fixed::lemma_div_le((A4_FREQUENCY_FX * ratio) as int,
                    440_000_000 * 8_000_000int, FX_ONE as int);
                assert(3_520_000_000_000_000int / 1_000_000int == 3_520_000_000int) by {
                    vstd::arithmetic::div_mod::lemma_fundamental_div_mod_converse(
                        3_520_000_000_000_000int,
                        1_000_000int,
                        3_520_000_000int,
                        0int,
                    );
                }
            }
            assert(A4_FREQUENCY_FX * ratio <= 440_000_000 * 32_000_000int) by (nonlinear_arith)
                requires
                    0 < ratio <= 32_000_000,
            ;
            assert(A4_FREQUENCY_FX * ratio >= 440_000_000 * 31250int) by (nonlinear_arith)
                requires
                    31250 <= ratio,
            ;
            crate::fixed::lemma_div_tz_mag((A4_FREQUENCY_FX * ratio) as int, FX_ONE as int);
            crate::fixed::lemma_div_le(440_000_000 * 31250int, (A4_FREQUENCY_FX * ratio) as int,
                FX_ONE as int);
            crate::fixed::lemma_div_le((A4_FREQUENCY_FX * ratio) as int,
                440_000_000 * 32_000_000int, FX_ONE as int);
        }
        crate::fixed::fx_mul_div(A4_FREQUENCY_FX, ratio, FX_ONE)
    }

    /// Find the closest note to a given frequency (in millionths of a Hz).
    pub fn from_frequency(frequency: i64) -> (r: Note)
        requires
            1 <= frequency <= 100_000_000_000,
        ensures
            r == spec_note_from_frequency(frequency as int),
    {
        let mut f = frequency;
        while f < NOTE_BAND_LOW
            invariant
                1 <= f <= 100_000_000_000,
                spec_norm_up(f as int) == spec_norm_up(frequency as int),
            decreases (if f < NOTE_BAND_LOW { (NOTE_BAND_LOW - f) as int } else { 0int }),
        {
            f = f * 2;
        }
        proof {
            assert(spec_norm_up(f as int) == f as int);
        }
        while f >= 2 * NOTE_BAND_LOW
            invariant
                NOTE_BAND_LOW <= f <= 100_000_000_000,
                spec_norm_down(f as int) == spec_norm_down(spec_norm_up(frequency as int)),
            decreases f,
        {
            f = f / 2;
        }
        note_in_band(f)
    }
}

/// Double a frequency until it reaches the A-centred band.
pub open spec fn spec_norm_up(f: int) -> int
    recommends
        f >= 1,
    decreases (if f < NOTE_BAND_LOW { (NOTE_BAND_LOW - f) as int } else { 0int }),
{
    if 1 <= f < NOTE_BAND_LOW {
        spec_norm_up(2 * f)
    } else {
        f
    }
}

/// Halve a frequency until it falls below one octave above the band floor.
pub open spec fn spec_norm_down(f: int) -> int
    recommends
        f >= NOTE_BAND_LOW,
    decreases (if f >= 0 { f } else { 0int }),
{
    if f >= 2 * NOTE_BAND_LOW {
        spec_norm_down(f / 2)
    } else {
        f
    }
}

/// The nearest note for a frequency already inside the A-centred band,
/// by the geometric semitone boundaries `440 * 2^((k - 1/2)/12)`.
pub open spec fn spec_note_in_band(f: int) -> Note {
    if f < 452_892_984 {
        Note::A
    } else if f < 479_823_402 {
        Note::ASharp
    } else if f < 508_355_187 {
        Note::B
    } else if f < 538_583_559 {
        Note::C
    } else if f < 570_609_404 {
        Note::CSharp
    } else if f < 604_539_605 {
        Note::D
    } else if f < 640_487_400 {
        Note::DSharp
    } else if f < 678_572_763 {
        Note::E
    } else if f < 718_922_799 {
        Note::F
    } else if f < 761_672_174 {
        Note::FSharp
    } else if f < 806_963_558 {
        Note::G
    } else {
        Note::GSharp
    }
}

/// The closest note to a frequency: normalize into the A-centred band by
/// octave shifts, then compare against the semitone boundaries.
pub open spec fn spec_note_from_frequency(f: int) -> Note {
    spec_note_in_band(spec_norm_down(spec_norm_up(f)))
}

/// Musical scales with interval definitions.
#[derive(Clone, Copy, Debug, PartialEq, Eq, Structural)]
pub enum Scale {
    Major,
    Minor,
    Pentatonic,
    Chromatic,
}

/// The interval pattern of a scale, in semitones above the root.
pub open spec fn spec_scale_intervals(s: Scale) -> Seq<i32> {
    match s {
        Scale::Major => seq![0i32, 2i32, 4i32, 5i32, 7i32, 9i32, 11i32],
        Scale::Minor => seq![0i32, 2i32, 3i32, 5i32, 7i32, 8i32, 10i32],
        Scale::Pentatonic => seq![0i32, 2i32, 4i32, 7i32, 9i32],
        Scale::Chromatic => seq![
            0i32,
            1i32,
            2i32,
            3i32,
            4i32,
            5i32,
            6i32,
            7i32,
            8i32,
            9i32,
            10i32,
            11i32,
        ],
    }
}

/// The notes of a scale rooted at `root`, folded into one octave.
pub open spec fn spec_scale_notes(s: Scale, root: Note) -> Seq<Note> {
    spec_scale_intervals(s).map_values(|iv: i32| spec_note_at(root, iv as int))
}

impl Scale {
    /// Get the interval pattern for this scale.
    pub fn intervals(&self) -> (r: Vec<i32>)
        ensures
            r@ == spec_scale_intervals(*self),
            r@.len() >= 5,
            forall|i: int| 0 <= i < r@.len() ==> 0 <= #[trigger] r@[i] <= 11,
    {
        let r = match self {
            Scale::Major => {
                let mut v: Vec<i32> = Vec::new();
                v.push(0);
                v.push(2);
                v.push(4);
                v.push(5);
                v.push(7);
                v.push(9);
                v.push(11);
                v
            },
            Scale::Minor => {
                let mut v: Vec<i32> = Vec::new();
                v.push(0);
                v.push(2);
                v.push(3);
                v.push(5);
                v.push(7);
                v.push(8);
                v.push(10);
                v
            },
            Scale::Pentatonic => {
                let mut v: Vec<i32> = Vec::new();
                v.push(0);
                v.push(2);
                v.push(4);
                v.push(7);
                v.push(9);
                v
            },
            Scale::Chromatic => {
                let mut v: Vec<i32> = Vec::new();
                let mut k: i32 = 0;
                while k < 12
                    invariant
                        0 <= k <= 12,
                        v@.len() == k,
                        forall|i: int| 0 <= i < k ==> v@[i] == i as i32,
                    decreases 12 - k,
                {
                    v.push(k);
                    k = k + 1;
                }
                proof {
                    assert(v@ =~= spec_scale_intervals(Scale::Chromatic));
                }
                v
            },
        };
        proof {
            assert(r@ =~= spec_scale_intervals(*self));
        }
        r
    }

    /// Get the notes for this scale starting from a root note.
    pub fn notes(&self, root: Note) -> (r: Vec<Note>)
        ensures
            r@ == spec_scale_notes(*self, root),
            r@.len() >= 5,
    {
        let intervals = self.intervals();
        let out = notes_at_intervals(root, &intervals);
        proof {
            assert(out@ =~= spec_scale_notes(*self, root));
        }
        out
    }
}

/// Map each interval to the note it reaches from `root`.
fn notes_at_intervals(root: Note, intervals: &Vec<i32>) -> (r: Vec<Note>)
    requires
        forall|i: int| 0 <= i < intervals@.len() ==> 0 <= #[trigger] intervals@[i] <= 1000,
    ensures
        r@.len() == intervals@.len(),
        forall|i: int| 0 <= i < r@.len() ==> r@[i] == spec_note_at(root, intervals@[i] as int),
{
    let offset = root.semitone_offset();
    let mut out: Vec<Note> = Vec::new();
    let mut i: usize = 0;
    while i < intervals.len()
        invariant
            0 <= i <= intervals@.len(),
            out@.len() == i,
            offset == spec_semitone_offset(root),
            forall|j: int| 0 <= j < intervals@.len() ==> 0 <= #[trigger] intervals@[j] <= 1000,
            forall|j: int| 0 <= j < i ==> out@[j] == spec_note_at(root, intervals@[j] as int),
        decreases intervals@.len() - i,
    {
        let iv = intervals[i];
        let k: u32 = ((offset + iv + 120) as u32) % 12;
        let note = note_of_index(k);
        out.push(note);
        i = i + 1;
    }
    out
}

/// Table lookup of the note `k` semitones above A.
fn note_of_index(k: u32) -> (r: Note)
    requires
        k < 12,
    ensures
        r == spec_note_of_index(k as int),
{
    if k == 0 {
        Note::A
    } else if k == 1 {
        Note::ASharp
    } else if k == 2 {
        Note::B
    } else if k == 3 {
        Note::C
    } else if k == 4 {
        Note::CSharp
    } else if k == 5 {
        Note::D
    } else if k == 6 {
        Note::DSharp
    } else if k == 7 {
        Note::E
    } else if k == 8 {
        Note::F
    } else if k == 9 {
        Note::FSharp
    } else if k == 10 {
        Note::G
    } else {
        Note::GSharp
    }
}

/// Musical chord with root note and interval structure.
#[derive(Clone, Debug)]
pub struct Chord {
    pub root: Note,
    pub intervals: Vec<i32>,
}

/// The notes of a chord, folded into one octave.
pub open spec fn spec_chord_notes(c: Chord) -> Seq<Note> {
    c.intervals@.map_values(|iv: i32| spec_note_at(c.root, iv as int))
}

/// A chord has the given root and interval pattern.
pub open spec fn spec_chord_is(c: Chord, root: Note, intervals: Seq<i32>) -> bool {
    c.root == root && c.intervals@ == intervals
}

impl Chord {
    /// Create a major chord.
    pub fn major(root: Note) -> (r: Chord)
        ensures
            spec_chord_is(r, root, seq![0i32, 4i32, 7i32]),
    {
        let mut intervals: Vec<i32> = Vec::new();
        intervals.push(0);
        intervals.push(4);
        intervals.push(7);
        proof {
            assert(intervals@ =~= seq![0i32, 4i32, 7i32]);
        }
        Chord { root, intervals }
    }

    /// Create a minor chord.
    pub fn minor(root: Note) -> (r: Chord)
        ensures
            spec_chord_is(r, root, seq![0i32, 3i32, 7i32]),
    {
        let mut intervals: Vec<i32> = Vec::new();
        intervals.push(0);
        intervals.push(3);
        intervals.push(7);
        proof {
            assert(intervals@ =~= seq![0i32, 3i32, 7i32]);
        }
        Chord { root, intervals }
    }

    /// Create a dominant 7th chord.
    pub fn dominant7(root: Note) -> (r: Chord)
        ensures
            spec_chord_is(r, root, seq![0i32, 4i32, 7i32, 10i32]),
    {
        let mut intervals: Vec<i32> = Vec::new();
        intervals.push(0);
        intervals.push(4);
        intervals.push(7);
        intervals.push(10);
        proof {
            assert(intervals@ =~= seq![0i32, 4i32, 7i32, 10i32]);
        }
        Chord { root, intervals }
    }

    /// Create a minor 7th chord.
    pub fn minor7(root: Note) -> (r: Chord)
        ensures
            spec_chord_is(r, root, seq![0i32, 3i32, 7i32, 10i32]),
    {
        let mut intervals: Vec<i32> = Vec::new();
        intervals.push(0);
        intervals.push(3);
        intervals.push(7);
        intervals.push(10);
        proof {
            assert(intervals@ =~= seq![0i32, 3i32, 7i32, 10i32]);
        }
        Chord { root, intervals }
    }

    /// Get the notes that make up this chord.
    pub fn notes(&self) -> (r: Vec<Note>)
        requires
            forall|i: int| 0 <= i < self.intervals@.len() ==> 0 <= #[trigger] self.intervals@[i]
                <= 1000,
        ensures
            r@ == spec_chord_notes(*self),
    {
        let out = notes_at_intervals(self.root, &self.intervals);
        proof {
            assert(out@ =~= spec_chord_notes(*self));
        }
        out
    }
}

/// Common chord progressions.
#[derive(Clone, Copy, Debug, PartialEq, Eq, Structural)]
pub enum ChordProgression {
    Pop,
    Jazz,
    Blues,
    Classical,
}

impl ChordProgression {
    /// Get the chords for this progression in a given key, built from the
    /// degrees of the major scale of that key.
    pub fn get_chords(&self, key: Note) -> (r: Vec<Chord>)
        ensures
            ({
                let scale = spec_scale_notes(Scale::Major, key);
                match *self {
                    ChordProgression::Pop => r@.len() == 4 && spec_chord_is(
                        r@[0],
                        scale[0],
                        seq![0i32, 4i32, 7i32],
                    ) && spec_chord_is(r@[1], scale[4], seq![0i32, 4i32, 7i32]) && spec_chord_is(
                        r@[2],
                        scale[5],
                        seq![0i32, 3i32, 7i32],
                    ) && spec_chord_is(r@[3], scale[3], seq![0i32, 4i32, 7i32]),
                    ChordProgression::Jazz => r@.len() == 3 && spec_chord_is(
                        r@[0],
                        scale[1],
                        seq![0i32, 3i32, 7i32, 10i32],
                    ) && spec_chord_is(r@[1], scale[4], seq![0i32, 4i32, 7i32, 10i32])
                        && spec_chord_is(r@[2], scale[0], seq![0i32, 4i32, 7i32]),
                    ChordProgression::Blues => r@.len() == 3 && spec_chord_is(
                        r@[0],
                        scale[0],
                        seq![0i32, 4i32, 7i32],
                    ) && spec_chord_is(r@[1], scale[3], seq![0i32, 4i32, 7i32]) && spec_chord_is(
                        r@[2],
                        scale[4],
                        seq![0i32, 4i32, 7i32],
                    ),
                    ChordProgression::Classical => r@.len() == 4 && spec_chord_is(
                        r@[0],
                        scale[0],
                        seq![0i32, 4i32, 7i32],
                    ) && spec_chord_is(r@[1], scale[5], seq![0i32, 3i32, 7i32]) && spec_chord_is(
                        r@[2],
                        scale[3],
                        seq![0i32, 4i32, 7i32],
                    ) && spec_chord_is(r@[3], scale[4], seq![0i32, 4i32, 7i32]),
                }
            }),
    {
        let scale = Scale::Major.notes(key);
        let mut r: Vec<Chord> = Vec::new();
        match self {
            ChordProgression::Pop => {
                r.push(Chord::major(scale[0]));
                r.push(Chord::major(scale[4]));
                r.push(Chord::minor(scale[5]));
                r.push(Chord::major(scale[3]));
            },
            ChordProgression::Jazz => {
                r.push(Chord::minor7(scale[1]));
                r.push(Chord::dominant7(scale[4]));
                r.push(Chord::major(scale[0]));
            },
            ChordProgression::Blues => {
                r.push(Chord::major(scale[0]));
                r.push(Chord::major(scale[3]));
                r.push(Chord::major(scale[4]));
            },
            ChordProgression::Classical => {
                r.push(Chord::major(scale[0]));
                r.push(Chord::minor(scale[5]));
                r.push(Chord::major(scale[3]));
                r.push(Chord::major(scale[4]));
            },
        }
        r
    }
}

/// Melody generation patterns.
#[derive(Clone, Copy, Debug, PartialEq, Eq, Structural)]
pub enum MelodyPattern {
    Ascending,
    Descending,
    Arpeggio,
    ScaleRun,
    Random,
}

/// A melody composed of notes with durations (in fixed-point seconds).
#[derive(Clone, Debug)]
pub struct Melody {
    pub notes: Vec<(Note, i64)>,
}

/// The note sequence a scale melody yields for a pattern: the scale run
/// ascends then descends at half duration, the arpeggio bounces across the
/// triad degrees, and the fallback pattern walks the first few degrees.
pub open spec fn spec_melody_from_scale(
    sn: Seq<Note>,
    pattern: MelodyPattern,
    d: int,
) -> Seq<(Note, i64)> {
    match pattern {
        MelodyPattern::Ascending => Seq::new(sn.len(), |i: int| (sn[i], d as i64)),
        MelodyPattern::Descending => Seq::new(sn.len(), |i: int| (sn[sn.len() - 1 - i], d as i64)),
        MelodyPattern::Arpeggio => if sn.len() >= 5 {
            seq![
                (sn[0], d as i64),
                (sn[2], d as i64),
                (sn[4], d as i64),
                (sn[2], d as i64),
                (sn[0], d as i64),
            ]
        } else {
            Seq::empty()
        },
        MelodyPattern::ScaleRun => Seq::new(sn.len(), |i: int| (sn[i], (d / 2) as i64)) + Seq::new(
            (sn.len() - 1) as nat,
            |i: int| (sn[sn.len() - 2 - i], (d / 2) as i64),
        ),
        MelodyPattern::Random => if sn.len() >= 3 {
            seq![(sn[0], d as i64), (sn[2], d as i64), (sn[1], d as i64), (sn[0], d as i64)]
        } else {
            Seq::empty()
        },
    }
}

/// The note sequence a chord melody yields for a pattern: the arpeggio
/// rises through the chord then falls back, descending reverses it, and
/// every other pattern rises once.
pub open spec fn spec_melody_from_chord(
    cn: Seq<Note>,
    pattern: MelodyPattern,
    d: int,
) -> Seq<(Note, i64)> {
    match pattern {
        MelodyPattern::Arpeggio => Seq::new(cn.len(), |i: int| (cn[i], d as i64)) + Seq::new(
            (cn.len() - 1) as nat,
            |i: int| (cn[cn.len() - 2 - i], d as i64),
        ),
        MelodyPattern::Descending => Seq::new(cn.len(), |i: int| (cn[cn.len() - 1 - i], d as i64)),
        _ => Seq::new(cn.len(), |i: int| (cn[i], d as i64)),
    }
}

impl Melody {
    /// Create a new empty melody.
    pub fn new() -> (r: Melody)
        ensures
            r.notes@.len() == 0,
    {
        Melody { notes: Vec::new() }
    }

    /// Create a melody from a scale with a given pattern.
    pub fn from_scale(scale: Scale, root: Note, _octave: i32, pattern: MelodyPattern, note_duration: i64)
        -> (r: Melody)
        requires
            0 <= note_duration,
        ensures
            r.notes@ == spec_melody_from_scale(
                spec_scale_notes(scale, root),
                pattern,
                note_duration as int,
            ),
            r.notes@.len() >= 4,
            forall|i: int| 0 <= i < r.notes@.len() ==> note_duration / 2 <= (
            #[trigger] r.notes@[i]).1 <= note_duration,
    {
        let scale_notes = scale.notes(root);
        let ghost sn = spec_scale_notes(scale, root);
        let n = scale_notes.len();
        let mut notes: Vec<(Note, i64)> = Vec::new();
        match pattern {
            MelodyPattern::Ascending => {
                let mut i: usize = 0;
                while i < n
                    invariant
                        0 <= i <= n,
                        n == sn.len(),
                        scale_notes@ == sn,
                        notes@.len() == i,
                        forall|j: int| 0 <= j < i ==> notes@[j] == (sn[j], note_duration),
                    decreases n - i,
                {
                    notes.push((scale_notes[i], note_duration));
                    i = i + 1;
                }
                proof {
                    assert(notes@ =~= spec_melody_from_scale(sn, pattern, note_duration as int));
                }
            },
            MelodyPattern::Descending => {
                let mut i: usize = 0;
                while i < n
                    invariant
                        0 <= i <= n,
                        n == sn.len(),
                        scale_notes@ == sn,
                        notes@.len() == i,
                        forall|j: int| 0 <= j < i ==> notes@[j] == (sn[sn.len() - 1 - j], note_duration),
                    decreases n - i,
                {
                    notes.push((scale_notes[n - 1 - i], note_duration));
                    i = i + 1;
                }
                proof {
                    assert(notes@ =~= spec_melody_from_scale(sn, pattern, note_duration as int));
                }
            },
            MelodyPattern::Arpeggio => {
                notes.push((scale_notes[0], note_duration));
                notes.push((scale_notes[2], note_duration));
                notes.push((scale_notes[4], note_duration));
                notes.push((scale_notes[2], note_duration));
                notes.push((scale_notes[0], note_duration));
                proof {
                    assert(notes@ =~= spec_melody_from_scale(sn, pattern, note_duration as int));
                }
            },
            MelodyPattern::ScaleRun => {
                let half = note_duration / 2;
                let mut i: usize = 0;
                while i < n
                    invariant
                        0 <= i <= n,
                        n == sn.len(),
                        scale_notes@ == sn,
                        half == note_duration / 2,
                        notes@.len() == i,
                        forall|j: int| 0 <= j < i ==> notes@[j] == (sn[j], half),
                    decreases n - i,
                {
                    notes.push((scale_notes[i], half));
                    i = i + 1;
                }
                let mut k: usize = 0;
                while k < n - 1
                    invariant
                        0 <= k <= n - 1,
                        n == sn.len(),
                        n >= 5,
                        scale_notes@ == sn,
                        half == note_duration / 2,
                        notes@.len() == n + k,
                        forall|j: int| 0 <= j < n ==> notes@[j] == (sn[j], half),
                        forall|j: int| n <= j < n + k ==> notes@[j] == (sn[2 * sn.len() - 2 - j], half),
                    decreases n - 1 - k,
                {
                    notes.push((scale_notes[n - 2 - k], half));
                    k = k + 1;
                }
                proof {
                    assert(notes@ =~= spec_melody_from_scale(sn, pattern, note_duration as int));
                }
            },
            MelodyPattern::Random => {
                notes.push((scale_notes[0], note_duration));
                notes.push((scale_notes[2], note_duration));
                notes.push((scale_notes[1], note_duration));
                notes.push((scale_notes[0], note_duration));
                proof {
                    assert(notes@ =~= spec_melody_from_scale(sn, pattern, note_duration as int));
                }
            },
        }
        proof {
            vstd::arithmetic::div_mod::lemma_div_pos_is_pos(note_duration as int, 2);
            vstd::arithmetic::div_mod::lemma_div_nonincreasing(note_duration as int, 2);
        }
        Melody { notes }
    }

    /// Create a melody from a chord with a given pattern.
    pub fn from_chord(chord: &Chord, _octave: i32, pattern: MelodyPattern, note_duration: i64)
        -> (r: Melody)
        requires
            0 <= note_duration,
            chord.intervals@.len() >= 1,
            forall|i: int| 0 <= i < chord.intervals@.len() ==> 0 <= #[trigger] chord.intervals@[i]
                <= 1000,
        ensures
            r.notes@ == spec_melody_from_chord(
                spec_chord_notes(*chord),
                pattern,
                note_duration as int,
            ),
            r.notes@.len() >= 1,
            forall|i: int| 0 <= i < r.notes@.len() ==> (#[trigger] r.notes@[i]).1 == note_duration,
    {
        let chord_notes = chord.notes();
        let ghost cn = spec_chord_notes(*chord);
        let n = chord_notes.len();
        let mut notes: Vec<(Note, i64)> = Vec::new();
        match pattern {
            MelodyPattern::Arpeggio => {
                let mut i: usize = 0;
                while i < n
                    invariant
                        0 <= i <= n,
                        n == cn.len(),
                        chord_notes@ == cn,
                        notes@.len() == i,
                        forall|j: int| 0 <= j < i ==> notes@[j] == (cn[j], note_duration),
                    decreases n - i,
                {
                    notes.push((chord_notes[i], note_duration));
                    i = i + 1;
                }
                let mut k: usize = 0;
                while k < n - 1
                    invariant
                        0 <= k <= n - 1,
                        n == cn.len(),
                        n >= 1,
                        chord_notes@ == cn,
                        notes@.len() == n + k,
                        forall|j: int| 0 <= j < n ==> notes@[j] == (cn[j], note_duration),
                        forall|j: int| n <= j < n + k ==> notes@[j] == (cn[2 * cn.len() - 2 - j], note_duration),
                    decreases n - 1 - k,
                {
                    notes.push((chord_notes[n - 2 - k], note_duration));
                    k = k + 1;
                }
                proof {
                    assert(notes@ =~= spec_melody_from_chord(cn, pattern, note_duration as int));
                }
            },
            MelodyPattern::Descending => {
                let mut i: usize = 0;
                while i < n
                    invariant
                        0 <= i <= n,
                        n == cn.len(),
                        chord_notes@ == cn,
                        notes@.len() == i,
                        forall|j: int| 0 <= j < i ==> notes@[j] == (cn[cn.len() - 1 - j], note_duration),
                    decreases n - i,
                {
                    notes.push((chord_notes[n - 1 - i], note_duration));
                    i = i + 1;
                }
                proof {
                    assert(notes@ =~= spec_melody_from_chord(cn, pattern, note_duration as int));
                }
            },
            _ => {
                let mut i: usize = 0;
                while i < n
                    invariant
                        0 <= i <= n,
                        n == cn.len(),
                        chord_notes@ == cn,
                        notes@.len() == i,
                        forall|j: int| 0 <= j < i ==> notes@[j] == (cn[j], note_duration),
                    decreases n - i,
                {
                    notes.push((chord_notes[i], note_duration));
                    i = i + 1;
                }
                proof {
                    assert(notes@ =~= spec_melody_from_chord(cn, pattern, note_duration as int));
                }
            },
        }
        Melody { notes }
    }
}

impl Default for Melody {
    /// An empty melody.
    fn default() -> (r: Melody)
        ensures
            r.notes@.len() == 0,
    {
        Melody::new()
    }
}

/// Rhythm patterns for timing control.
#[derive(Clone, Copy, Debug, PartialEq, Eq, Structural)]
pub enum RhythmPattern {
    Steady,
    Quick,
    Long,
    Notification,
}

/// The duration each rhythm pattern assigns to the note at index `i` of
/// `count` notes, from a base duration `d`.
pub open spec fn spec_rhythm_duration(p: RhythmPattern, d: int, count: int, i: int) -> int {
    match p {
        RhythmPattern::Steady => d,
        RhythmPattern::Quick => (3 * d) / 10,
        RhythmPattern::Long => (3 * d) / 2,
        RhythmPattern::Notification => if i == count - 1 {
            d
        } else {
            d / 5
        },
    }
}

impl RhythmPattern {
    /// Get the duration values for this rhythm pattern: steady notes keep
    /// the base duration, quick notes take 0.3 of it, long notes 1.5 of it,
    /// and the notification pattern plays short notes with a long final one.
    pub fn get_durations(&self, base_duration: i64, note_count: usize) -> (r: Vec<i64>)
        requires
            0 <= base_duration <= 1_000_000_000_000,
        ensures
            r@.len() == note_count,
            forall|i: int| 0 <= i < note_count ==> r@[i] == spec_rhythm_duration(
                *self,
                base_duration as int,
                note_count as int,
                i,
            ),
    {
        let d: i64 = match self {
            RhythmPattern::Steady => base_duration,
            RhythmPattern::Quick => (3 * base_duration) / 10,
            RhythmPattern::Long => (3 * base_duration) / 2,
            RhythmPattern::Notification => base_duration / 5,
        };
        let mut r: Vec<i64> = Vec::new();
        let mut i: usize = 0;
        while i < note_count
            invariant
                0 <= i <= note_count,
                r@.len() == i,
                forall|j: int| 0 <= j < i ==> r@[j] == d,
            decreases note_count - i,
        {
            r.push(d);
            i = i + 1;
        }
        if note_count > 0 {
            match self {
                RhythmPattern::Notification => {
                    let last = r.len() - 1;
                    r.set(last, base_duration);
                },
                _ => {},
            }
        }
        r
    }
}

/// Boundary comparison for a frequency already inside the band.
fn note_in_band(f: i64) -> (r: Note)
    requires
        NOTE_BAND_LOW <= f < 2 * NOTE_BAND_LOW,
    ensures
        r == spec_note_in_band(f as int),
{
    if f < 452_892_984 {
        Note::A
    } else if f < 479_823_402 {
        Note::ASharp
    } else if f < 508_355_187 {
        Note::B
    } else if f < 538_583_559 {
        Note::C
    } else if f < 570_609_404 {
        Note::CSharp
    } else if f < 604_539_605 {
        Note::D
    } else if f < 640_487_400 {
        Note::DSharp
    } else if f < 678_572_763 {
        Note::E
    } else if f < 718_922_799 {
        Note::F
    } else if f < 761_672_174 {
        Note::FSharp
    } else if f < 806_963_558 {
        Note::G
    } else {
        Note::GSharp
    }
}

} // verus!
