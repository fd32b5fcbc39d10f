use v_path::theory::{Chord, ChordQuality, PitchClass};
use v_path::tui::{parse_chord, App, AppMode, KeyCode, KeyEvent, MainMenuChoice};

fn key(code: KeyCode) -> KeyEvent {
    KeyEvent::new(code, false)
}

#[test]
fn main_menu_selects_creator_and_live_modes() {
    let mut app = App::default();

    assert_eq!(app.mode(), AppMode::MainMenu);
    assert_eq!(app.selected_menu_choice(), MainMenuChoice::CreatorMode);

    app.handle_key(key(KeyCode::Char('j')));
    assert_eq!(app.selected_menu_choice(), MainMenuChoice::LiveMode);

    app.handle_key(key(KeyCode::Char('k')));
    app.handle_key(key(KeyCode::Enter));
    assert_eq!(app.mode(), AppMode::Creator);
}

#[test]
fn creator_adds_progression_steps_and_generates_ranked_riffs() {
    let mut app = App::default();
    app.handle_key(key(KeyCode::Enter));

    for code in [
        KeyCode::Char('D'),
        KeyCode::Enter,
        KeyCode::Char('G'),
        KeyCode::Enter,
    ] {
        app.handle_key(key(code));
    }

    let creator = app.creator();
    assert_eq!(creator.progression().len(), 2);
    assert!(!creator.riffs().is_empty());
    assert!(creator
        .riffs()
        .windows(2)
        .all(|pair| pair[0].physical_cost() <= pair[1].physical_cost()));
}

#[test]
fn creator_supports_j_k_selection_and_enter_selection() {
    let mut app = App::default();
    app.handle_key(key(KeyCode::Enter));
    for code in [
        KeyCode::Char('D'),
        KeyCode::Enter,
        KeyCode::Char('G'),
        KeyCode::Enter,
    ] {
        app.handle_key(key(code));
    }

    app.handle_key(key(KeyCode::Char('j')));
    assert_eq!(app.creator().selected_riff_index(), 1);
    app.handle_key(key(KeyCode::Char('k')));
    assert_eq!(app.creator().selected_riff_index(), 0);
    app.handle_key(key(KeyCode::Enter));
    assert!(app.creator().status().contains("Selected TAB #1"));
}

#[test]
fn creator_filters_generated_tabs_by_tag() {
    let mut app = App::default();
    app.handle_key(key(KeyCode::Enter));
    for code in [
        KeyCode::Char('D'),
        KeyCode::Enter,
        KeyCode::Char('G'),
        KeyCode::Enter,
    ] {
        app.handle_key(key(code));
    }

    app.handle_key(key(KeyCode::Char('t')));
    for c in "target_root".chars() {
        app.handle_key(key(KeyCode::Char(c)));
    }
    app.handle_key(key(KeyCode::Enter));

    assert_eq!(app.creator().tag_filter(), Some("target_root"));
    assert!(app
        .creator()
        .riffs()
        .iter()
        .all(|riff| riff.has_tag("target_root")));
}

#[test]
fn parses_common_chord_spellings() {
    assert_eq!(
        parse_chord("D").unwrap(),
        Chord::new(PitchClass::D, ChordQuality::Major)
    );
    assert_eq!(
        parse_chord("Bbmaj7").unwrap(),
        Chord::new(PitchClass::ASharp, ChordQuality::MajorSeventh)
    );
    assert_eq!(
        parse_chord("em7").unwrap(),
        Chord::new(PitchClass::E, ChordQuality::MinorSeventh)
    );
    assert!(parse_chord("H").is_err());
}
