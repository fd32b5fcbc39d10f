use std::cmp::Ordering;

use v_path::theory::{Chord, ChordQuality, Interval, Note, PitchClass, Scale, ScaleKind};

#[test]
fn pitch_class_parses_enharmonic_spellings() {
    assert_eq!("Bb".parse::<PitchClass>(), Ok(PitchClass::ASharp));
    assert_eq!("E#".parse::<PitchClass>(), Ok(PitchClass::F));
    assert!("H".parse::<PitchClass>().is_err());
}

#[test]
fn note_rejects_octaves_outside_supported_range() {
    assert!(Note::new(PitchClass::C, -1).is_err());
    assert_eq!(
        Note::new(PitchClass::C, 4)
            .expect("C4 should be valid")
            .midi_number(),
        60
    );
}

#[test]
fn notes_sort_by_absolute_pitch_not_pitch_class() {
    let c_sharp_zero = Note::new(PitchClass::CSharp, 0).expect("C#0 should be valid");
    let c_five = Note::new(PitchClass::C, 5).expect("C5 should be valid");

    assert!(c_sharp_zero < c_five);
    assert_eq!(c_sharp_zero.cmp(&c_five), Ordering::Less);
}

#[test]
fn interval_rejects_values_larger_than_two_octaves() {
    assert!(Interval::new(25).is_err());
    assert_eq!(Interval::new(24), Ok(Interval::new(24).unwrap()));
}

#[test]
fn chord_expands_to_pitch_classes() {
    let chord = Chord::new(PitchClass::D, ChordQuality::MinorSeventh);
    assert_eq!(
        chord.pitch_classes(),
        vec![PitchClass::D, PitchClass::F, PitchClass::A, PitchClass::C]
    );
}

#[test]
fn scale_expands_to_pitch_classes_and_checks_membership() {
    let scale = Scale::new(PitchClass::G, ScaleKind::Major);
    assert_eq!(
        scale.pitch_classes(),
        vec![
            PitchClass::G,
            PitchClass::A,
            PitchClass::B,
            PitchClass::C,
            PitchClass::D,
            PitchClass::E,
            PitchClass::FSharp,
        ]
    );
    assert!(scale.contains(PitchClass::FSharp));
    assert!(!scale.contains(PitchClass::F));
}
