use v_path::fretboard::{Fretboard, FretboardError, Position};
use v_path::theory::{Note, PitchClass};

#[test]
fn position_rejects_coordinates_outside_six_by_twenty_four_grid() {
    assert_eq!(
        Position::new(0, 0),
        Err(FretboardError::StringOutOfRange { string: 0 })
    );
    assert_eq!(
        Position::new(7, 0),
        Err(FretboardError::StringOutOfRange { string: 7 })
    );
    assert_eq!(
        Position::new(1, 25),
        Err(FretboardError::FretOutOfRange { fret: 25 })
    );
    assert_eq!(
        Position::new(6, 24)
            .expect("string 6 fret 24 should be valid")
            .fret(),
        24
    );
}

#[test]
fn standard_tuning_maps_open_strings_to_eadgbe() {
    let fretboard = Fretboard::standard();

    assert_eq!(
        fretboard.open_note(6),
        Ok(Note::new(PitchClass::E, 2).unwrap())
    );
    assert_eq!(
        fretboard.open_note(5),
        Ok(Note::new(PitchClass::A, 2).unwrap())
    );
    assert_eq!(
        fretboard.open_note(4),
        Ok(Note::new(PitchClass::D, 3).unwrap())
    );
    assert_eq!(
        fretboard.open_note(3),
        Ok(Note::new(PitchClass::G, 3).unwrap())
    );
    assert_eq!(
        fretboard.open_note(2),
        Ok(Note::new(PitchClass::B, 3).unwrap())
    );
    assert_eq!(
        fretboard.open_note(1),
        Ok(Note::new(PitchClass::E, 4).unwrap())
    );
}

#[test]
fn frets_transpose_from_the_standard_tuning_open_note() {
    let fretboard = Fretboard::standard();
    let low_e_third_fret = Position::new(6, 3).expect("G on low E should be valid");
    let b_string_first_fret = Position::new(2, 1).expect("C on B string should be valid");
    let high_e_twelfth_fret = Position::new(1, 12).expect("E5 should be valid");

    assert_eq!(
        fretboard.note_at(low_e_third_fret),
        Note::new(PitchClass::G, 2).unwrap()
    );
    assert_eq!(
        fretboard.note_at(b_string_first_fret),
        Note::new(PitchClass::C, 4).unwrap()
    );
    assert_eq!(
        fretboard.note_at(high_e_twelfth_fret),
        Note::new(PitchClass::E, 5).unwrap()
    );
}

#[test]
fn all_positions_returns_complete_cartesian_grid() {
    let positions = Fretboard::standard().all_positions();

    assert_eq!(positions.len(), 150);
    assert_eq!(
        positions.first().copied(),
        Some(Position::new(1, 0).unwrap())
    );
    assert_eq!(
        positions.last().copied(),
        Some(Position::new(6, 24).unwrap())
    );
    assert!(positions.contains(&Position::new(4, 12).unwrap()));
}

#[test]
fn positions_for_pitch_class_finds_notes_across_the_grid() {
    let fretboard = Fretboard::standard();
    let c_positions = fretboard.positions_for_pitch_class(PitchClass::C);

    assert!(c_positions.contains(&Position::new(2, 1).unwrap()));
    assert!(c_positions.contains(&Position::new(5, 3).unwrap()));
    assert!(c_positions
        .iter()
        .all(|position| { fretboard.note_at(*position).pitch_class() == PitchClass::C }));
}
