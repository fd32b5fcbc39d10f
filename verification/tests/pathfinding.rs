use v_path::fretboard::Fretboard;
use v_path::pathfinding::{
    find_paths, find_paths_in_range, find_paths_with_limit, target_pitch_classes, PathfindingError,
};
use v_path::theory::{Chord, ChordQuality, PitchClass};

#[test]
fn dfs_finds_exact_length_paths_from_current_chord_shape_to_next_chord_tones() {
    let fretboard = Fretboard::standard();
    let current_chord = Chord::new(PitchClass::D, ChordQuality::Major);
    let next_chord = Chord::new(PitchClass::G, ChordQuality::Major);

    let riffs = find_paths_with_limit(fretboard, current_chord, next_chord, 3, 3, 32)
        .expect("D to G three-note paths should be searchable");

    assert!(!riffs.is_empty());
    let current_pitch_classes = current_chord.pitch_classes();
    let target_pitch_classes: Vec<_> = target_pitch_classes(next_chord)
        .into_iter()
        .map(|(pitch_class, _)| pitch_class)
        .collect();

    for riff in riffs {
        assert_eq!(riff.sequence().len(), 3);
        assert!(current_pitch_classes
            .contains(&fretboard.note_at(riff.sequence()[0]).pitch_class()));
        assert!(target_pitch_classes.contains(
            &fretboard
                .note_at(*riff.sequence().last().expect("riff should have an end"))
                .pitch_class()
        ));
        assert!(riff
            .sequence()
            .windows(2)
            .all(|positions| positions[0] != positions[1]));
        assert!(riff.tags().iter().any(|tag| tag.starts_with("target_")));
    }
}

#[test]
fn range_search_keeps_paths_inside_the_requested_lengths() {
    let riffs = find_paths_with_limit(
        Fretboard::standard(),
        Chord::new(PitchClass::A, ChordQuality::Minor),
        Chord::new(PitchClass::C, ChordQuality::Major),
        2,
        4,
        64,
    )
    .expect("A minor to C major range search should be valid");

    assert!(!riffs.is_empty());
    assert!(riffs
        .iter()
        .all(|riff| (2..=4).contains(&riff.sequence().len())));
}

#[test]
fn dfs_rejects_unusable_lengths() {
    assert_eq!(
        find_paths(
            Fretboard::standard(),
            Chord::new(PitchClass::C, ChordQuality::Major),
            Chord::new(PitchClass::G, ChordQuality::Major),
            1,
        ),
        Err(PathfindingError::PathTooShort { notes: 1 })
    );

    assert_eq!(
        find_paths_in_range(
            Fretboard::standard(),
            Chord::new(PitchClass::C, ChordQuality::Major),
            Chord::new(PitchClass::G, ChordQuality::Major),
            5,
            4,
        ),
        Err(PathfindingError::InvalidLengthRange {
            min_notes: 5,
            max_notes: 4,
        })
    );
}
