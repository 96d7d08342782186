//! Tests for notes, scales, chords, progressions and rhythm patterns.

use jinglemaker::music::{Note, Scale, Chord, ChordProgression, RhythmPattern};

#[test]
fn test_note_frequency() {
    assert_eq!(Note::A.frequency(4), 440_000_000);
    assert!((Note::C.frequency(4) - 261_630_000i64).abs() < 10_000);
}

#[test]
fn test_scale_notes() {
    let c_major = Scale::Major.notes(Note::C);
    assert_eq!(c_major[0], Note::C);
    assert_eq!(c_major[1], Note::D);
    assert_eq!(c_major[2], Note::E);
}

#[test]
fn test_chord_notes() {
    let c_major_chord = Chord::major(Note::C);
    let notes = c_major_chord.notes();
    assert_eq!(notes[0], Note::C);
    assert_eq!(notes[1], Note::E);
    assert_eq!(notes[2], Note::G);
}

#[test]
fn test_note_from_frequency() {
    assert_eq!(Note::from_frequency(440_000_000), Note::A);
    assert_eq!(Note::from_frequency(261_625_540), Note::C);
    // An octave shift does not change the note.
    assert_eq!(Note::from_frequency(880_000_000), Note::A);
    assert_eq!(Note::from_frequency(220_000_000), Note::A);
}

#[test]
fn test_pop_progression_roots() {
    let chords = ChordProgression::Pop.get_chords(Note::C);
    assert_eq!(chords.len(), 4);
    assert_eq!(chords[0].root, Note::C);
    assert_eq!(chords[1].root, Note::G);
    assert_eq!(chords[2].root, Note::A);
    assert_eq!(chords[3].root, Note::F);
}

#[test]
fn test_rhythm_durations() {
    let quick = RhythmPattern::Quick.get_durations(1_000_000, 3);
    assert_eq!(quick, vec![300_000, 300_000, 300_000]);
    let long = RhythmPattern::Long.get_durations(1_000_000, 2);
    assert_eq!(long, vec![1_500_000, 1_500_000]);
    let notification = RhythmPattern::Notification.get_durations(1_000_000, 3);
    assert_eq!(notification, vec![200_000, 200_000, 1_000_000]);
    let steady = RhythmPattern::Steady.get_durations(500_000, 2);
    assert_eq!(steady, vec![500_000, 500_000]);
}

#[test]
fn test_minor_chord_notes() {
    let a_minor = Chord::minor(Note::A);
    let notes = a_minor.notes();
    assert_eq!(notes[0], Note::A);
    assert_eq!(notes[1], Note::C);
    assert_eq!(notes[2], Note::E);
}
