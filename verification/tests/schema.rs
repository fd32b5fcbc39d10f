use v_path::fretboard::Position;
use v_path::pathfinding::Riff;
use v_path::schema::{
    SavedRiff, SongMetadata, SongProfile, Transition, PROFILE_SCHEMA_VERSION,
    TOML_PROFILE_EXAMPLE, YAML_PROFILE_EXAMPLE,
};
use v_path::theory::{Chord, ChordQuality, PitchClass, Scale, ScaleKind};

#[test]
fn saved_riff_derives_cost_from_positions() {
    let saved = SavedRiff::new(
        "Verse walk-up",
        Some("verse".to_owned()),
        vec![
            Position::new(4, 0).expect("D string open should be valid"),
            Position::new(4, 2).expect("D string fret 2 should be valid"),
            Position::new(3, 0).expect("G string open should be valid"),
        ],
        vec!["target_root".to_owned()],
    );

    assert_eq!(saved.physical_cost, 9);
    assert_eq!(saved.variation.as_deref(), Some("verse"));
}

#[test]
fn saved_riff_can_be_built_from_engine_riff() {
    let riff = Riff::new(
        vec![
            Position::new(6, 2).expect("low E fret 2 should be valid"),
            Position::new(6, 3).expect("low E fret 3 should be valid"),
        ],
        vec!["target_root".to_owned(), "net_ascending".to_owned()],
    );

    let saved = SavedRiff::from_riff("Chorus answer", Some("chorus".to_owned()), &riff);

    assert_eq!(saved.name, "Chorus answer");
    assert_eq!(saved.positions, riff.sequence());
    assert_eq!(saved.tags, riff.tags());
    assert_eq!(saved.physical_cost, riff.physical_cost());
}

#[test]
fn profile_groups_multiple_variations_under_one_transition() {
    let from = Chord::new(PitchClass::D, ChordQuality::Major);
    let to = Chord::new(PitchClass::G, ChordQuality::Major);
    let verse = SavedRiff::new(
        "Verse walk-up",
        Some("verse".to_owned()),
        vec![
            Position::new(4, 0).expect("D string open should be valid"),
            Position::new(4, 2).expect("D string fret 2 should be valid"),
        ],
        Vec::new(),
    );
    let chorus = SavedRiff::new(
        "Chorus answer",
        Some("chorus".to_owned()),
        vec![
            Position::new(3, 2).expect("G string fret 2 should be valid"),
            Position::new(2, 3).expect("B string fret 3 should be valid"),
        ],
        Vec::new(),
    );

    let profile = SongProfile::new(
        SongMetadata::new("Example Tune", Scale::new(PitchClass::D, ScaleKind::Major))
            .with_artist("v-path"),
        vec![from, to],
        vec![Transition::new("d_to_g", from, to, vec![verse, chorus])],
    );

    assert_eq!(profile.schema_version, PROFILE_SCHEMA_VERSION);
    assert_eq!(profile.transitions[0].riffs.len(), 2);
    assert_eq!(
        profile.transitions[0].riffs[0].variation.as_deref(),
        Some("verse")
    );
    assert_eq!(
        profile.transitions[0].riffs[1].variation.as_deref(),
        Some("chorus")
    );
}

#[test]
fn schema_examples_document_required_top_level_objects() {
    for example in [YAML_PROFILE_EXAMPLE, TOML_PROFILE_EXAMPLE] {
        assert!(example.contains("schema_version"));
        assert!(example.contains("song"));
        assert!(example.contains("progression"));
        assert!(example.contains("transitions"));
        assert!(example.contains("riffs"));
        assert!(example.contains("variation"));
    }
}
