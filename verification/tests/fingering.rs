use v_path::fingering::{AnchorFinger, Finger, HandState, HandStateError, HandStateMachine};
use v_path::fretboard::{Fretboard, Position};
use v_path::theory::{Chord, ChordQuality, PitchClass};

fn pos(string: u8, fret: u8) -> Position {
    Position::new(string, fret).expect("test position should be valid")
}

#[test]
fn hand_state_tracks_sorted_anchor_fingers_for_current_chord() {
    let fretboard = Fretboard::standard();
    let d_major = Chord::new(PitchClass::D, ChordQuality::Major);

    let state = HandState::new(
        fretboard,
        d_major,
        vec![
            AnchorFinger::new(Finger::Ring, pos(2, 3)),
            AnchorFinger::new(Finger::Index, pos(3, 2)),
            AnchorFinger::new(Finger::Middle, pos(1, 2)),
        ],
    )
    .expect("D major anchor shape should be valid");

    assert_eq!(state.chord(), d_major);
    assert_eq!(
        state.anchors(),
        &[
            AnchorFinger::new(Finger::Index, pos(3, 2)),
            AnchorFinger::new(Finger::Middle, pos(1, 2)),
            AnchorFinger::new(Finger::Ring, pos(2, 3)),
        ]
    );
    assert_eq!(
        state.anchor_for_finger(Finger::Ring),
        Some(AnchorFinger::new(Finger::Ring, pos(2, 3)))
    );
    assert_eq!(
        state.anchored_pitch_classes(fretboard),
        vec![PitchClass::A, PitchClass::FSharp, PitchClass::D]
    );
}

#[test]
fn state_machine_reports_retained_anchors_between_d_major_and_b_minor() {
    let fretboard = Fretboard::standard();
    let mut machine = HandStateMachine::new();

    machine
        .anchor_chord(
            fretboard,
            Chord::new(PitchClass::D, ChordQuality::Major),
            vec![
                AnchorFinger::new(Finger::Index, pos(3, 2)),
                AnchorFinger::new(Finger::Ring, pos(2, 3)),
            ],
        )
        .expect("D major anchors should be valid");

    let transition = machine
        .transition_to(
            fretboard,
            Chord::new(PitchClass::B, ChordQuality::Minor),
            vec![
                AnchorFinger::new(Finger::Middle, pos(1, 2)),
                AnchorFinger::new(Finger::Ring, pos(2, 3)),
                AnchorFinger::new(Finger::Pinky, pos(5, 2)),
            ],
        )
        .expect("B minor anchors should be valid");

    assert_eq!(
        transition.retained_anchors(),
        &[AnchorFinger::new(Finger::Ring, pos(2, 3)),]
    );
    assert_eq!(
        machine
            .current()
            .expect("current state should be set")
            .chord(),
        Chord::new(PitchClass::B, ChordQuality::Minor)
    );
}

#[test]
fn hand_state_rejects_invalid_anchor_assignments() {
    let fretboard = Fretboard::standard();
    let c_major = Chord::new(PitchClass::C, ChordQuality::Major);

    assert_eq!(
        HandState::new(fretboard, c_major, Vec::new()),
        Err(HandStateError::NoAnchors)
    );
    assert_eq!(
        HandState::new(
            fretboard,
            c_major,
            vec![
                AnchorFinger::new(Finger::Index, pos(5, 3)),
                AnchorFinger::new(Finger::Index, pos(4, 2)),
            ],
        ),
        Err(HandStateError::DuplicateFinger {
            finger: Finger::Index,
        })
    );
    assert_eq!(
        HandState::new(
            fretboard,
            c_major,
            vec![AnchorFinger::new(Finger::Index, pos(1, 0))],
        ),
        Err(HandStateError::OpenStringAnchor {
            position: pos(1, 0)
        })
    );
    let outside_chord_error = HandState::new(
        fretboard,
        c_major,
        vec![AnchorFinger::new(Finger::Index, pos(6, 2))],
    )
    .expect_err("F# should not be accepted as a C major anchor");

    assert_eq!(
        outside_chord_error,
        HandStateError::AnchorOutsideChord {
            position: pos(6, 2),
            pitch_class: PitchClass::FSharp,
            chord: c_major,
        }
    );
    assert_eq!(
        outside_chord_error.to_string(),
        "anchor at string 6 fret 2 sounds F#, which is not in C major"
    );
}
