use std::cmp::Ordering;

use v_path::fingering::{AnchorFinger, Finger, HandState, HandStateError, HandStateMachine};
use v_path::fretboard::{Fretboard, FretboardError, Position};
use v_path::musical::{apply_musical_filters, MusicalFilter};
use v_path::pathfinding::{
    find_paths_with_limit, physical_cost, PathfindingError, Riff, DEFAULT_MAX_PATHS,
};
use v_path::schema::{SavedRiff, SongMetadata, Transition, Tuning};
use v_path::theory::{
    Chord, ChordQuality, Interval, IntervalError, Note, NoteError, PitchClass, Scale, ScaleKind,
};
use v_path::tui::{
    parse_chord, render_progression, render_riff_score, render_riff_tags, render_tab, App, AppMode,
    KeyCode, KeyEvent,
};

const ALL_PITCH_CLASSES: [PitchClass; 12] = [
    PitchClass::C,
    PitchClass::CSharp,
    PitchClass::D,
    PitchClass::DSharp,
    PitchClass::E,
    PitchClass::F,
    PitchClass::FSharp,
    PitchClass::G,
    PitchClass::GSharp,
    PitchClass::A,
    PitchClass::ASharp,
    PitchClass::B,
];

const ALL_QUALITIES: [ChordQuality; 7] = [
    ChordQuality::Major,
    ChordQuality::Minor,
    ChordQuality::Diminished,
    ChordQuality::Augmented,
    ChordQuality::DominantSeventh,
    ChordQuality::MajorSeventh,
    ChordQuality::MinorSeventh,
];

fn pos(string: u8, fret: u8) -> Position {
    Position::new(string, fret).unwrap()
}

fn key(code: KeyCode) -> KeyEvent {
    KeyEvent::new(code, false)
}

fn type_text(app: &mut App, text: &str) {
    for c in text.chars() {
        app.handle_key(key(KeyCode::Char(c)));
    }
}

#[test]
fn pitch_class_semitones_round_trip_and_wrap_by_octave() {
    for (index, pitch_class) in ALL_PITCH_CLASSES.iter().enumerate() {
        assert_eq!(pitch_class.semitone() as usize, index);
        assert_eq!(PitchClass::from_semitones(index as i16), *pitch_class);
        assert_eq!(PitchClass::from_semitones(index as i16 + 12), *pitch_class);
        assert_eq!(PitchClass::from_semitones(index as i16 - 24), *pitch_class);
    }
    assert_eq!(PitchClass::from_semitones(-1), PitchClass::B);
    assert_eq!(PitchClass::from_semitones(i16::MIN), PitchClass::E);
    assert_eq!(PitchClass::from_semitones(i16::MAX), PitchClass::G);
}

#[test]
fn transposition_composes() {
    let fifth = Interval::new(7).unwrap();
    assert_eq!(PitchClass::C.transpose(fifth).transpose(fifth), PitchClass::D);
    assert_eq!(
        PitchClass::A.transpose(Interval::new(24).unwrap()),
        PitchClass::A
    );
}

#[test]
fn pitch_class_names_parse_back() {
    for pitch_class in ALL_PITCH_CLASSES {
        assert_eq!(PitchClass::parse(pitch_class.name()), Ok(pitch_class));
        assert_eq!(pitch_class.to_string(), pitch_class.name());
    }
    assert_eq!(PitchClass::parse("  Gb \t"), Ok(PitchClass::FSharp));
    assert_eq!(PitchClass::parse("Cb"), Ok(PitchClass::B));
    assert_eq!(
        PitchClass::parse(" H# "),
        Err(NoteError::InvalidPitchClass("H#".to_owned()))
    );
}

#[test]
fn error_messages_read_as_documented() {
    assert_eq!(
        NoteError::InvalidPitchClass("H".to_owned()).to_string(),
        "invalid pitch class: H"
    );
    assert_eq!(
        NoteError::OctaveOutOfRange { octave: -3 }.to_string(),
        "octave -3 is outside the supported range 0..=8"
    );
    assert_eq!(
        IntervalError::TooLarge { semitones: 30 }.to_string(),
        "interval of 30 semitones exceeds the two-octave limit"
    );
    assert_eq!(
        FretboardError::StringOutOfRange { string: 9 }.to_string(),
        "string 9 is outside the supported range 1..=6"
    );
    assert_eq!(
        FretboardError::FretOutOfRange { fret: 31 }.to_string(),
        "fret 31 is outside the supported range 0..=24"
    );
    assert_eq!(
        PathfindingError::PathTooLong {
            notes: 17,
            max_notes: 16
        }
        .to_string(),
        "path length 17 exceeds the V1 DFS limit of 16 notes"
    );
    assert_eq!(
        PathfindingError::InvalidLengthRange {
            min_notes: 5,
            max_notes: 4
        }
        .to_string(),
        "path length range 5..=4 must have min <= max"
    );
    assert_eq!(
        PathfindingError::PathTooShort { notes: 1 }.to_string(),
        "path length 1 must include at least start and target notes"
    );
}

#[test]
fn notes_order_by_midi_number_and_transpose_by_semitones() {
    let d4 = Note::new(PitchClass::D, 4).unwrap();
    let e4 = Note::new(PitchClass::E, 4).unwrap();
    assert!(d4 < e4);
    assert_eq!(d4.partial_cmp(&d4), Some(Ordering::Equal));
    assert_eq!(e4.partial_cmp(&d4), Some(Ordering::Greater));
    assert_eq!(d4.to_string(), "D4");

    let c4 = Note::new(PitchClass::C, 4).unwrap();
    let c5 = c4.transpose(Interval::new(12).unwrap()).unwrap();
    assert_eq!(c5, Note::new(PitchClass::C, 5).unwrap());
    assert_eq!(c5.midi_number(), 72);

    let b8 = Note::new(PitchClass::B, 8).unwrap();
    assert_eq!(
        b8.transpose(Interval::new(1).unwrap()),
        Err(NoteError::OctaveOutOfRange { octave: 9 })
    );
    assert_eq!(
        Note::new(PitchClass::C, 9),
        Err(NoteError::OctaveOutOfRange { octave: 9 })
    );
    assert_eq!(
        Interval::new(25),
        Err(IntervalError::TooLarge { semitones: 25 })
    );
}

#[test]
fn chords_start_on_their_root_and_scales_contain_their_tonic() {
    for root in ALL_PITCH_CLASSES {
        for quality in ALL_QUALITIES {
            let chord = Chord::new(root, quality);
            let tones = chord.pitch_classes();
            assert!(tones.len() >= 3);
            assert_eq!(tones[0], root);
        }
        for kind in [
            ScaleKind::Major,
            ScaleKind::NaturalMinor,
            ScaleKind::HarmonicMinor,
            ScaleKind::MajorPentatonic,
            ScaleKind::MinorPentatonic,
        ] {
            assert!(Scale::new(root, kind).contains(root));
        }
    }
    assert_eq!(
        Chord::new(PitchClass::C, ChordQuality::Augmented).pitch_classes(),
        vec![PitchClass::C, PitchClass::E, PitchClass::GSharp]
    );
    assert_eq!(
        Scale::new(PitchClass::A, ScaleKind::MinorPentatonic).pitch_classes(),
        vec![
            PitchClass::A,
            PitchClass::C,
            PitchClass::D,
            PitchClass::E,
            PitchClass::G
        ]
    );
}

#[test]
fn chord_symbols_parse_back_to_their_chord() {
    for root in ALL_PITCH_CLASSES {
        for quality in ALL_QUALITIES {
            let chord = Chord::new(root, quality);
            assert_eq!(parse_chord(&chord.to_string()), Ok(chord));
        }
    }
    assert_eq!(
        Chord::new(PitchClass::CSharp, ChordQuality::MinorSeventh).to_string(),
        "C#m7"
    );
}

#[test]
fn chord_parse_errors_name_the_problem() {
    assert_eq!(parse_chord("   ").unwrap_err().to_string(), "empty chord");
    assert_eq!(
        parse_chord("H").unwrap_err().to_string(),
        "root must be A through G"
    );
    assert_eq!(
        parse_chord("Cxyz").unwrap_err().to_string(),
        "unsupported chord quality 'xyz'"
    );
    assert_eq!(
        parse_chord("C MAJ7 ").unwrap(),
        Chord::new(PitchClass::C, ChordQuality::MajorSeventh)
    );
    assert_eq!(
        parse_chord("f#dim").unwrap(),
        Chord::new(PitchClass::FSharp, ChordQuality::Diminished)
    );
    assert_eq!(
        parse_chord("Eb+").unwrap(),
        Chord::new(PitchClass::DSharp, ChordQuality::Augmented)
    );
}

#[test]
fn twelve_frets_up_is_an_octave_up() {
    let fretboard = Fretboard::standard();
    for string in 1..=6 {
        for fret in 0..=12 {
            let low = fretboard.note_at(pos(string, fret));
            let high = fretboard.note_at(pos(string, fret + 12));
            assert_eq!(high.midi_number(), low.midi_number() + 12);
            assert_eq!(high.pitch_class(), low.pitch_class());
        }
    }
    assert_eq!(fretboard.open_note(0), Err(FretboardError::StringOutOfRange { string: 0 }));
}

#[test]
fn positions_for_a_pitch_class_are_exactly_those_sounding_it() {
    let fretboard = Fretboard::standard();
    let c_positions = fretboard.positions_for_pitch_class(PitchClass::C);
    assert_eq!(c_positions.len(), 12);
    let expected: Vec<Position> = fretboard
        .all_positions()
        .into_iter()
        .filter(|p| fretboard.note_at(*p).pitch_class() == PitchClass::C)
        .collect();
    assert_eq!(c_positions, expected);
    let e_positions = fretboard.positions_for_pitch_class(PitchClass::E);
    assert_eq!(e_positions.len(), 14);
}

#[test]
fn physical_cost_sums_squared_moves() {
    assert_eq!(physical_cost(&[pos(4, 0), pos(4, 2), pos(3, 0)]), 9);
    assert_eq!(physical_cost(&[pos(3, 2), pos(2, 1), pos(2, 3)]), 6);
    assert_eq!(physical_cost(&[pos(1, 2), pos(1, 7)]), 25);
    assert_eq!(physical_cost(&[pos(1, 2), pos(1, 3), pos(1, 4)]), 2);
    assert_eq!(physical_cost(&[pos(5, 5)]), 0);
    assert_eq!(physical_cost(&[]), 0);
    let riff = Riff::new(vec![pos(6, 0), pos(1, 24)], vec!["a".to_owned()]);
    assert_eq!(riff.physical_cost(), 601);
    assert!(riff.has_tag("a"));
    assert!(!riff.has_tag("b"));
}

fn chord_tones(chord: Chord) -> Vec<PitchClass> {
    chord.pitch_classes()
}

#[test]
fn searched_riffs_are_ranked_local_walks_between_chord_tones() {
    let fretboard = Fretboard::standard();
    let from = Chord::new(PitchClass::E, ChordQuality::Minor);
    let to = Chord::new(PitchClass::A, ChordQuality::DominantSeventh);
    let riffs = find_paths_with_limit(fretboard, from, to, 2, 4, 50).unwrap();
    assert_eq!(riffs.len(), 50);
    let targets: Vec<PitchClass> = chord_tones(to)[..3].to_vec();
    for riff in &riffs {
        let seq = riff.sequence();
        assert!((2..=4).contains(&seq.len()));
        assert!(chord_tones(from).contains(&fretboard.note_at(seq[0]).pitch_class()));
        let last = fretboard.note_at(*seq.last().unwrap());
        assert!(targets.contains(&last.pitch_class()));
        for pair in seq.windows(2) {
            assert_ne!(pair[0], pair[1]);
            assert!(pair[0].string().abs_diff(pair[1].string()) <= 1);
            assert!(pair[0].fret().abs_diff(pair[1].fret()) <= 1);
        }
        for i in 0..seq.len() {
            for j in i + 1..seq.len() {
                assert_ne!(seq[i], seq[j]);
            }
        }
        assert_eq!(riff.physical_cost(), physical_cost(seq));
        let first = fretboard.note_at(seq[0]);
        let tone_tag = if last.pitch_class() == targets[0] {
            "target_root"
        } else if last.pitch_class() == targets[1] {
            "target_third"
        } else {
            "target_fifth"
        };
        assert_eq!(riff.tags()[0], tone_tag);
        let direction: Vec<String> = riff.tags()[1..].to_vec();
        if last.midi_number() > first.midi_number() {
            assert_eq!(direction, vec!["net_ascending".to_owned()]);
        } else if last.midi_number() < first.midi_number() {
            assert_eq!(direction, vec!["net_descending".to_owned()]);
        } else {
            assert!(direction.is_empty());
        }
    }
    for pair in riffs.windows(2) {
        assert!(pair[0].physical_cost() <= pair[1].physical_cost());
    }
}

#[test]
fn search_limits_and_length_errors() {
    let fretboard = Fretboard::standard();
    let c = Chord::new(PitchClass::C, ChordQuality::Major);
    let g = Chord::new(PitchClass::G, ChordQuality::Major);
    assert_eq!(find_paths_with_limit(fretboard, c, g, 2, 3, 0), Ok(Vec::new()));
    assert_eq!(
        find_paths_with_limit(fretboard, c, g, 2, 17, 5),
        Err(PathfindingError::PathTooLong {
            notes: 17,
            max_notes: 16
        })
    );
    assert_eq!(
        find_paths_with_limit(fretboard, c, g, 0, 3, 5),
        Err(PathfindingError::PathTooShort { notes: 0 })
    );
    let capped = find_paths_with_limit(fretboard, c, g, 3, 3, 7).unwrap();
    assert_eq!(capped.len(), 7);
    let many = find_paths_with_limit(fretboard, c, g, 3, 3, DEFAULT_MAX_PATHS).unwrap();
    assert!(many.len() <= DEFAULT_MAX_PATHS);
}

#[test]
fn musical_filters_keep_only_tagged_riffs_in_order() {
    let a = Riff::new(vec![pos(1, 1)], vec!["x".to_owned(), "y".to_owned()]);
    let b = Riff::new(vec![pos(2, 2)], vec!["y".to_owned()]);
    let c = Riff::new(vec![pos(3, 3)], vec!["x".to_owned()]);
    let kept = apply_musical_filters(
        Fretboard::standard(),
        vec![a.clone(), b.clone(), c.clone()],
        &[MusicalFilter::RequiredTag("x".to_owned())],
    );
    assert_eq!(kept, vec![a.clone(), c.clone()]);
    let both = apply_musical_filters(
        Fretboard::standard(),
        vec![a.clone(), b.clone(), c.clone()],
        &[
            MusicalFilter::RequiredTag("x".to_owned()),
            MusicalFilter::RequiredTag("y".to_owned()),
        ],
    );
    assert_eq!(both, vec![a.clone()]);
    let none = apply_musical_filters(Fretboard::standard(), vec![a.clone(), b.clone()], &[]);
    assert_eq!(none, vec![a, b]);
}

#[test]
fn hand_state_errors_and_lookups() {
    let fretboard = Fretboard::standard();
    let g_major = Chord::new(PitchClass::G, ChordQuality::Major);
    let five = vec![
        AnchorFinger::new(Finger::Index, pos(5, 2)),
        AnchorFinger::new(Finger::Middle, pos(6, 3)),
        AnchorFinger::new(Finger::Ring, pos(2, 3)),
        AnchorFinger::new(Finger::Pinky, pos(1, 3)),
        AnchorFinger::new(Finger::Index, pos(4, 5)),
    ];
    let error = HandState::new(fretboard, g_major, five).unwrap_err();
    assert_eq!(error, HandStateError::TooManyAnchors { count: 5 });
    assert_eq!(
        error.to_string(),
        "hand state has 5 anchors but only four fretting fingers are available"
    );
    let clash = HandState::new(
        fretboard,
        g_major,
        vec![
            AnchorFinger::new(Finger::Middle, pos(6, 3)),
            AnchorFinger::new(Finger::Ring, pos(6, 3)),
        ],
    )
    .unwrap_err();
    assert_eq!(
        clash,
        HandStateError::DuplicatePosition {
            position: pos(6, 3)
        }
    );
    assert_eq!(
        clash.to_string(),
        "position string 6 fret 3 is assigned to more than one anchor"
    );
    assert_eq!(
        HandStateError::DuplicateFinger {
            finger: Finger::Pinky
        }
        .to_string(),
        "finger 4 is assigned to more than one anchor"
    );

    let state = HandState::new(
        fretboard,
        g_major,
        vec![
            AnchorFinger::new(Finger::Ring, pos(1, 3)),
            AnchorFinger::new(Finger::Index, pos(5, 2)),
        ],
    )
    .unwrap();
    assert_eq!(Finger::Ring.number(), 3);
    assert_eq!(
        state.anchored_position(pos(5, 2)),
        Some(AnchorFinger::new(Finger::Index, pos(5, 2)))
    );
    assert_eq!(state.anchored_position(pos(5, 3)), None);
    assert_eq!(state.anchor_for_finger(Finger::Pinky), None);
    assert_eq!(state.anchors()[0].finger(), Finger::Index);
}

#[test]
fn state_machine_keeps_its_state_on_refused_shapes_and_releases() {
    let fretboard = Fretboard::standard();
    let mut machine = HandStateMachine::new();
    assert!(machine.current().is_none());
    let d_major = Chord::new(PitchClass::D, ChordQuality::Major);

    let first = machine
        .transition_to(
            fretboard,
            d_major,
            vec![AnchorFinger::new(Finger::Index, pos(3, 2))],
        )
        .unwrap();
    assert!(first.previous().is_none());
    assert!(first.retained_anchors().is_empty());
    assert_eq!(first.current().chord(), d_major);

    let refused = machine.anchor_chord(fretboard, d_major, Vec::new());
    assert_eq!(refused, Err(HandStateError::NoAnchors));
    assert_eq!(machine.current().unwrap().chord(), d_major);

    let second = machine
        .transition_to(
            fretboard,
            Chord::new(PitchClass::G, ChordQuality::Major),
            vec![
                AnchorFinger::new(Finger::Index, pos(3, 2)),
                AnchorFinger::new(Finger::Middle, pos(5, 2)),
            ],
        )
        .unwrap_err();
    assert_eq!(
        second,
        HandStateError::AnchorOutsideChord {
            position: pos(3, 2),
            pitch_class: PitchClass::A,
            chord: Chord::new(PitchClass::G, ChordQuality::Major),
        }
    );
    assert_eq!(machine.current().unwrap().chord(), d_major);

    let released = machine.release().unwrap();
    assert_eq!(released.chord(), d_major);
    assert!(machine.current().is_none());
    assert!(machine.release().is_none());
}

#[test]
fn saved_riffs_and_metadata_keep_their_fields() {
    let metadata = SongMetadata::new("Tune", Scale::new(PitchClass::E, ScaleKind::NaturalMinor));
    assert_eq!(metadata.title, "Tune");
    assert_eq!(metadata.artist, None);
    assert_eq!(metadata.tuning, Tuning::Standard);
    let metadata = metadata.with_artist("Band");
    assert_eq!(metadata.artist.as_deref(), Some("Band"));
    let from = Chord::new(PitchClass::E, ChordQuality::Minor);
    let to = Chord::new(PitchClass::A, ChordQuality::Minor);
    let saved = SavedRiff::new("Walk", None, vec![pos(1, 2), pos(1, 7)], Vec::new());
    assert_eq!(saved.physical_cost, 25);
    let transition = Transition::new("em_to_am", from, to, vec![saved.clone()]);
    assert_eq!(transition.id, "em_to_am");
    assert_eq!(transition.riffs, vec![saved]);
}

#[test]
fn tabs_render_as_string_fret_cells() {
    let riff = Riff::new(vec![pos(4, 0), pos(4, 2), pos(3, 0)], Vec::new());
    assert_eq!(render_tab(&riff), "s4f0 → s4f2 → s3f0");
    let single = Riff::new(vec![pos(6, 12)], Vec::new());
    assert_eq!(render_tab(&single), "s6f12");
}

#[test]
fn riff_list_headings_pad_rank_and_score() {
    let riff = Riff::new(
        vec![pos(4, 0), pos(4, 2), pos(3, 0)],
        vec!["target_root".to_owned(), "net_ascending".to_owned()],
    );
    assert_eq!(render_riff_score(0, &riff), "#01 score   9");
    assert_eq!(render_riff_score(9, &riff), "#10 score   9");
    assert_eq!(render_riff_score(122, &riff), "#123 score   9");
    let far = Riff::new(vec![pos(1, 0), pos(6, 12)], Vec::new());
    assert_eq!(render_riff_score(4, &far), "#05 score 169");
    assert_eq!(render_riff_tags(&riff), "  tags: target_root, net_ascending");
    assert_eq!(render_riff_tags(&far), "  tags: ");
}

#[test]
fn progressions_and_transitions_render_as_text() {
    assert_eq!(render_progression(&[]), "(empty)");
    let progression = [
        Chord::new(PitchClass::D, ChordQuality::Major),
        Chord::new(PitchClass::G, ChordQuality::Minor),
        Chord::new(PitchClass::A, ChordQuality::DominantSeventh),
    ];
    assert_eq!(render_progression(&progression[..1]), "D");
    assert_eq!(render_progression(&progression), "D → Gm → A7");

    let mut app = App::default();
    app.handle_key(key(KeyCode::Enter));
    type_text(&mut app, "D");
    app.handle_key(key(KeyCode::Enter));
    assert_eq!(app.creator().transition_heading(), None);
    type_text(&mut app, "G");
    app.handle_key(key(KeyCode::Enter));
    type_text(&mut app, "A7");
    app.handle_key(key(KeyCode::Enter));
    assert_eq!(app.creator().transition_heading(), Some("Transition 2 of 2".to_owned()));
    app.handle_key(key(KeyCode::Char('h')));
    assert_eq!(app.creator().transition_heading(), Some("Transition 1 of 2".to_owned()));
}

#[test]
fn control_c_quits_and_live_mode_returns_to_menu() {
    let mut app = App::default();
    app.handle_key(key(KeyCode::Char('j')));
    app.handle_key(key(KeyCode::Enter));
    assert_eq!(app.mode(), AppMode::Live);
    app.handle_key(key(KeyCode::Esc));
    assert_eq!(app.mode(), AppMode::MainMenu);
    app.handle_key(KeyEvent::new(KeyCode::Char('c'), true));
    assert!(app.should_quit());
}

#[test]
fn creator_typing_editing_and_status_messages() {
    let mut app = App::default();
    app.handle_key(key(KeyCode::Enter));
    assert_eq!(
        app.creator().status(),
        "Type a chord such as D, Gm, A7, Cmaj7, or Bdim; Enter adds it."
    );
    app.handle_key(key(KeyCode::Enter));
    assert_eq!(
        app.creator().status(),
        "Add at least two chords before selecting a generated TAB."
    );
    type_text(&mut app, "Cx");
    app.handle_key(key(KeyCode::Backspace));
    assert_eq!(app.creator().chord_input(), "C");
    app.handle_key(key(KeyCode::Enter));
    assert_eq!(
        app.creator().status(),
        "Added C. Add another chord to generate a transition, or use h/l to revisit transitions."
    );
    type_text(&mut app, "Zz");
    app.handle_key(key(KeyCode::Enter));
    assert_eq!(
        app.creator().status(),
        "Could not parse chord 'Zz': root must be A through G"
    );
    for _ in 0..2 {
        app.handle_key(key(KeyCode::Backspace));
    }
    type_text(&mut app, "G");
    app.handle_key(key(KeyCode::Enter));
    let count = app.creator().riffs().len();
    assert!(count > 0);
    assert_eq!(
        app.creator().status(),
        format!(
            "Generated {count} ranked TABs for C → G. Use j/k to scroll and Enter to select."
        )
    );
    type_text(&mut app, "Am");
    app.handle_key(key(KeyCode::Enter));
    assert_eq!(app.creator().transition_index(), 1);
    assert_eq!(
        app.creator().current_transition(),
        Some((
            Chord::new(PitchClass::G, ChordQuality::Major),
            Chord::new(PitchClass::A, ChordQuality::Minor)
        ))
    );
    app.handle_key(key(KeyCode::Left));
    assert_eq!(app.creator().transition_index(), 0);
    app.handle_key(key(KeyCode::Char('h')));
    assert_eq!(app.creator().transition_index(), 0);
    app.handle_key(key(KeyCode::Char('l')));
    app.handle_key(key(KeyCode::Right));
    assert_eq!(app.creator().transition_index(), 1);
    app.handle_key(key(KeyCode::Esc));
    assert_eq!(app.mode(), AppMode::MainMenu);
}

#[test]
fn creator_tag_filter_prompt_can_be_cancelled_and_cleared() {
    let mut app = App::default();
    app.handle_key(key(KeyCode::Enter));
    type_text(&mut app, "D");
    app.handle_key(key(KeyCode::Enter));
    type_text(&mut app, "G");
    app.handle_key(key(KeyCode::Enter));
    let all = app.creator().riffs().len();

    app.handle_key(key(KeyCode::Char('t')));
    assert!(app.creator().is_filtering());
    type_text(&mut app, "nope");
    app.handle_key(key(KeyCode::Esc));
    assert!(!app.creator().is_filtering());
    assert_eq!(app.creator().status(), "Tag filter cancelled.");
    assert_eq!(app.creator().tag_filter(), None);

    app.handle_key(key(KeyCode::Char('t')));
    type_text(&mut app, "nopeX");
    app.handle_key(key(KeyCode::Backspace));
    assert_eq!(app.creator().tag_filter_input(), "nope");
    app.handle_key(key(KeyCode::Enter));
    assert_eq!(app.creator().tag_filter(), Some("nope"));
    assert!(app.creator().riffs().is_empty());
    assert_eq!(
        app.creator().status(),
        "No generated TABs for D → G match tag 'nope'."
    );
    app.handle_key(key(KeyCode::Enter));
    assert_eq!(
        app.creator().status(),
        "No TAB is available to select; clear or change the tag filter."
    );

    app.handle_key(key(KeyCode::Char('T')));
    assert_eq!(app.creator().tag_filter(), None);
    assert_eq!(app.creator().riffs().len(), all);

    app.handle_key(key(KeyCode::Down));
    app.handle_key(key(KeyCode::Down));
    assert_eq!(app.creator().selected_riff_index(), 2);
    app.handle_key(key(KeyCode::Enter));
    let chosen = &app.creator().riffs()[2];
    assert_eq!(
        app.creator().status(),
        format!("Selected TAB #3 with score {}.", chosen.physical_cost())
    );
    assert_eq!(app.creator().saved_riff(), Some(chosen));
    app.handle_key(key(KeyCode::Char('q')));
    assert!(app.should_quit());
}

#[test]
fn named_intervals_have_their_sizes() {
    let named = [
        Interval::unison(),
        Interval::minor_second(),
        Interval::major_second(),
        Interval::minor_third(),
        Interval::major_third(),
        Interval::perfect_fourth(),
        Interval::tritone(),
        Interval::perfect_fifth(),
        Interval::minor_sixth(),
        Interval::major_sixth(),
        Interval::minor_seventh(),
        Interval::major_seventh(),
        Interval::octave(),
    ];
    for (size, interval) in named.iter().enumerate() {
        assert_eq!(interval.semitones() as usize, size);
        assert_eq!(Interval::new(size as u8), Ok(*interval));
    }
    assert_eq!(PitchClass::D.transpose(Interval::perfect_fifth()), PitchClass::A);
}

#[test]
fn parsing_reads_the_trimmed_text() {
    assert_eq!(" Db\t".parse::<PitchClass>(), "Db".parse::<PitchClass>());
    assert_eq!("Db".parse::<PitchClass>(), Ok(PitchClass::CSharp));
    assert_eq!("Cb".parse::<PitchClass>(), Ok(PitchClass::B));
    assert_eq!(
        "  H ".parse::<PitchClass>(),
        Err(NoteError::InvalidPitchClass("H".to_owned()))
    );
    assert_eq!(parse_chord("  Gm7 \n"), parse_chord("Gm7"));
    assert_eq!(
        parse_chord("Gm7"),
        Ok(Chord::new(PitchClass::G, ChordQuality::MinorSeventh))
    );
    assert_eq!(parse_chord(" Dsus "), parse_chord("Dsus"));
    assert!(parse_chord("Dsus").is_err());
}

#[test]
fn physical_cost_is_symmetric_and_adds_over_joins() {
    let a = [pos(4, 0), pos(4, 2)];
    let b = [pos(3, 0), pos(3, 5), pos(2, 6)];
    let joined: Vec<Position> = a.iter().chain(b.iter()).copied().collect();
    assert_eq!(
        physical_cost(&joined),
        physical_cost(&a) + physical_cost(&[a[1], b[0]]) + physical_cost(&b)
    );
    let reversed: Vec<Position> = joined.iter().rev().copied().collect();
    assert_eq!(physical_cost(&reversed), physical_cost(&joined));
    assert_eq!(physical_cost(&[pos(2, 2)]), 0);
    assert!(physical_cost(&[pos(2, 2), pos(2, 3)]) >= 1);
}

#[test]
fn each_pitch_class_sounds_twelve_times_plus_its_open_strings() {
    let fretboard = Fretboard::standard();
    for pitch_class in ALL_PITCH_CLASSES {
        let open_strings = (1..=6)
            .filter(|string| fretboard.open_note(*string).unwrap().pitch_class() == pitch_class)
            .count();
        assert_eq!(
            fretboard.positions_for_pitch_class(pitch_class).len(),
            12 + open_strings
        );
    }
    assert_eq!(fretboard.positions_for_pitch_class(PitchClass::E).len(), 14);
    assert_eq!(fretboard.positions_for_pitch_class(PitchClass::A).len(), 13);
    assert_eq!(fretboard.positions_for_pitch_class(PitchClass::C).len(), 12);
}

#[test]
fn anchoring_gives_the_state_that_new_builds() {
    let fretboard = Fretboard::standard();
    let d_major = Chord::new(PitchClass::D, ChordQuality::Major);
    let anchors = vec![
        AnchorFinger::new(Finger::Ring, pos(2, 3)),
        AnchorFinger::new(Finger::Index, pos(3, 2)),
    ];
    let built = HandState::new(fretboard, d_major, anchors.clone()).unwrap();
    let mut machine = HandStateMachine::default();
    let held = machine.anchor_chord(fretboard, d_major, anchors.clone()).unwrap();
    assert_eq!(*held, built);
    assert_eq!(machine.current(), Some(&built));

    let mut other = HandStateMachine::new();
    let transition = other.transition_to(fretboard, d_major, anchors).unwrap();
    assert_eq!(transition.current(), &built);
    assert_eq!(transition.previous(), None);
}

#[test]
fn interface_state_clones_alike() {
    let mut app = App::default();
    app.handle_key(key(KeyCode::Enter));
    type_text(&mut app, "D");
    app.handle_key(key(KeyCode::Enter));
    type_text(&mut app, "G");
    app.handle_key(key(KeyCode::Enter));
    let copy = app.clone();
    assert_eq!(copy.mode(), app.mode());
    assert_eq!(copy.creator().status(), app.creator().status());
    assert_eq!(copy.creator().progression(), app.creator().progression());
    assert_eq!(copy.creator().riffs(), app.creator().riffs());
    assert_eq!(copy.creator().selected_riff_index(), app.creator().selected_riff_index());
}

#[test]
fn search_below_the_cap_finds_every_two_note_walk() {
    let fretboard = Fretboard::standard();
    let from = Chord::new(PitchClass::D, ChordQuality::Major);
    let to = Chord::new(PitchClass::G, ChordQuality::Major);
    let from_tones = from.pitch_classes();
    let to_tones: Vec<PitchClass> = to.pitch_classes().into_iter().take(3).collect();
    let mut expected = Vec::new();
    for p in fretboard.all_positions() {
        if !from_tones.contains(&fretboard.note_at(p).pitch_class()) {
            continue;
        }
        for q in fretboard.all_positions() {
            let ds = p.string() as i16 - q.string() as i16;
            let df = p.fret() as i16 - q.fret() as i16;
            if p != q
                && ds.abs() <= 1
                && df.abs() <= 1
                && to_tones.contains(&fretboard.note_at(q).pitch_class())
            {
                expected.push(vec![p, q]);
            }
        }
    }
    let riffs = find_paths_with_limit(fretboard, from, to, 2, 2, 100_000).unwrap();
    assert_eq!(riffs.len(), expected.len());
    for walk in &expected {
        assert!(riffs.iter().any(|riff| riff.sequence() == walk.as_slice()));
    }
    assert!(expected.contains(&vec![pos(4, 0), pos(3, 0)]));
}
