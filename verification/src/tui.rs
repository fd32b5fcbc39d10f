//! The state machine behind the terminal interface: a main menu, Creator
//! Mode (chord progression builder and ranked riff browser), and Live Mode.
//! Key presses come in as `KeyEvent` values; drawing is left to the caller.
use vstd::prelude::*;

use crate::fretboard::{Fretboard, Position};
use crate::musical::{apply_musical_filters, meets_filter, meets_filters, MusicalFilter};
use crate::pathfinding::{find_paths_with_limit, is_search_result, length_error, texts, Riff};
use crate::text::{
    ascii_lower,
    ascii_upper,
    chars_equal,
    decimal,
    is_white_space,
    joined,
    lemma_trim_unchanged,
    padded,
    pop_char,
    push_char,
    push_decimal,
    push_padded_decimal,
    string_of_chars,
    to_ascii_lower,
    to_ascii_upper,
    trim,
    trim_str,
};
use crate::theory::{Chord, ChordQuality, NoteError, PitchClass};

verus! {

broadcast use {Chord::lemma_spec_of, Position::lemma_at};

const CREATOR_RESULT_LIMIT: usize = 96;

const CREATOR_MIN_NOTES: usize = 3;

const CREATOR_MAX_NOTES: usize = 5;

/// Which screen the interface shows.
#[derive(Debug, Clone, Copy, PartialEq, Eq, Structural)]
pub enum AppMode {
    MainMenu,
    Creator,
    Live,
}

/// The entries of the main menu.
#[derive(Debug, Clone, Copy, PartialEq, Eq, Structural)]
pub enum MainMenuChoice {
    CreatorMode,
    LiveMode,
}

#[derive(Debug, Clone, Copy, PartialEq, Eq, Structural)]
enum CreatorPrompt {
    Chord,
    TagFilter,
}

/// The key of a key press.
#[derive(Debug, Clone, Copy, PartialEq, Eq, Structural)]
pub enum KeyCode {
    Char(char),
    Enter,
    Esc,
    Backspace,
    Up,
    Down,
    Left,
    Right,
    Other,
}

/// A key press, with whether the Control modifier was held.
#[derive(Debug, Clone, Copy, PartialEq, Eq, Structural)]
pub struct KeyEvent {
    pub code: KeyCode,
    pub control: bool,
}

impl KeyEvent {
    pub fn new(code: KeyCode, control: bool) -> (r: Self)
        ensures
            r.code == code,
            r.control == control,
    {
        KeyEvent { code, control }
    }
}

/// Why a chord symbol could not be read.
#[derive(Debug, Clone, PartialEq, Eq)]
pub struct ChordParseError(String);

impl ChordParseError {
    pub closed spec fn spec_message(&self) -> Seq<char> {
        self.0@
    }

    /// The message that the error displays.
    pub fn to_string(&self) -> (r: String)
        ensures
            r@ == self.spec_message(),
    {
        self.0.clone()
    }
}

/// The chord quality named by a lower-case suffix.
pub open spec fn quality_of_suffix(s: Seq<char>) -> Option<ChordQuality> {
    if s == ""@ || s == "maj"@ || s == "major"@ {
        Some(ChordQuality::Major)
    } else if s == "m"@ || s == "min"@ || s == "minor"@ {
        Some(ChordQuality::Minor)
    } else if s == "dim"@ || s == "°"@ {
        Some(ChordQuality::Diminished)
    } else if s == "aug"@ || s == "+"@ {
        Some(ChordQuality::Augmented)
    } else if s == "7"@ || s == "dom7"@ {
        Some(ChordQuality::DominantSeventh)
    } else if s == "maj7"@ || s == "major7"@ || s == "ma7"@ {
        Some(ChordQuality::MajorSeventh)
    } else if s == "m7"@ || s == "min7"@ || s == "minor7"@ {
        Some(ChordQuality::MinorSeventh)
    } else {
        None
    }
}

/// How many characters of a trimmed chord symbol spell its root: the letter,
/// and a following `#` or `b`.
pub open spec fn root_len(t: Seq<char>) -> int {
    if t.len() >= 2 && (t[1] == '#' || t[1] == 'b') {
        2
    } else {
        1
    }
}

/// The root spelling of a trimmed chord symbol, letter upper-cased.
pub open spec fn root_spelling(t: Seq<char>) -> Seq<char> {
    if root_len(t) == 2 {
        seq![ascii_upper(t[0]), t[1]]
    } else {
        seq![ascii_upper(t[0])]
    }
}

/// The quality suffix of a trimmed chord symbol: what follows the root,
/// trimmed and lower-cased.
pub open spec fn chord_suffix(t: Seq<char>) -> Seq<char> {
    trim(t.skip(root_len(t))).map_values(|c: char| ascii_lower(c))
}

/// What reading a chord symbol gives: its root and quality, or the message of
/// the error.
pub open spec fn parse_chord_result(input: Seq<char>) -> Result<(PitchClass, ChordQuality), Seq<char>> {
    let t = trim(input);
    if t.len() == 0 {
        Err("empty chord"@)
    } else if !('A' <= ascii_upper(t[0]) && ascii_upper(t[0]) <= 'G') {
        Err("root must be A through G"@)
    } else {
        match quality_of_suffix(chord_suffix(t)) {
            Some(q) => Ok((PitchClass::spec_parse(root_spelling(t))->0, q)),
            None => Err("unsupported chord quality '"@ + chord_suffix(t) + "'"@),
        }
    }
}

fn quality_from_suffix(s: &Vec<char>) -> (r: Option<ChordQuality>)
    ensures
        r == quality_of_suffix(s@),
{
    if chars_equal(s, "") || chars_equal(s, "maj") || chars_equal(s, "major") {
        Some(ChordQuality::Major)
    } else if chars_equal(s, "m") || chars_equal(s, "min") || chars_equal(s, "minor") {
        Some(ChordQuality::Minor)
    } else if chars_equal(s, "dim") || chars_equal(s, "°") {
        Some(ChordQuality::Diminished)
    } else if chars_equal(s, "aug") || chars_equal(s, "+") {
        Some(ChordQuality::Augmented)
    } else if chars_equal(s, "7") || chars_equal(s, "dom7") {
        Some(ChordQuality::DominantSeventh)
    } else if chars_equal(s, "maj7") || chars_equal(s, "major7") || chars_equal(s, "ma7") {
        Some(ChordQuality::MajorSeventh)
    } else if chars_equal(s, "m7") || chars_equal(s, "min7") || chars_equal(s, "minor7") {
        Some(ChordQuality::MinorSeventh)
    } else {
        None
    }
}

/// Every root letter with an optional sharp or flat names a pitch class.
proof fn lemma_root_parses(t: Seq<char>)
    requires
        t.len() >= 1,
        'A' <= ascii_upper(t[0]) && ascii_upper(t[0]) <= 'G',
    ensures
        PitchClass::spec_parse(root_spelling(t)) is Some,
{
    let c = ascii_upper(t[0]);
    assert(c == 'A' || c == 'B' || c == 'C' || c == 'D' || c == 'E' || c == 'F' || c == 'G') by {
        assert(c as u32 >= 65 && c as u32 <= 71);
    }
}

/// Reads a chord symbol such as `D`, `Gm`, `Bbmaj7` or `em7`: a root letter
/// (either case), an optional `#` or `b`, and a quality suffix.
pub fn parse_chord(input: &str) -> (r: Result<Chord, ChordParseError>)
    ensures
        parse_chord_result(input@) matches Ok((root, quality)) ==> r == Ok::<Chord, ChordParseError>(
            Chord::spec_of(root, quality),
        ),
        parse_chord_result(input@) matches Err(msg) ==> (r matches Err(e) && e.spec_message()
            == msg),
{
    let t = trim_str(input);
    let n = t.unicode_len();
    if n == 0 {
        return Err(ChordParseError("empty chord".to_owned()));
    }
    let first = to_ascii_upper(t.get_char(0));
    if !('A' <= first && first <= 'G') {
        return Err(ChordParseError("root must be A through G".to_owned()));
    }
    let mut root = String::new();
    push_char(&mut root, first);
    let mut suffix_start: usize = 1;
    if n >= 2 {
        let accidental = t.get_char(1);
        if accidental == '#' || accidental == 'b' {
            push_char(&mut root, accidental);
            suffix_start = 2;
        }
    }
    proof {
        assert(root@ =~= root_spelling(t@));
        lemma_root_parses(t@);
        lemma_trim_unchanged(root@);
    }
    let pitch = match PitchClass::parse(root.as_str()) {
        Ok(p) => p,
        Err(error) => {
            return Err(ChordParseError(error.to_string()));
        },
    };
    let rest = trim_str(t.substring_char(suffix_start, n));
    let m = rest.unicode_len();
    let mut suffix: Vec<char> = Vec::new();
    let mut i: usize = 0;
    while i < m
        invariant
            m == rest@.len(),
            i <= m,
            suffix@ == rest@.take(i as int).map_values(|c: char| ascii_lower(c)),
        decreases m - i,
    {
        suffix.push(to_ascii_lower(rest.get_char(i)));
        i = i + 1;
        assert(suffix@ =~= rest@.take(i as int).map_values(|c: char| ascii_lower(c)));
    }
    proof {
        assert(rest@.take(m as int) =~= rest@);
        assert(t@.subrange(suffix_start as int, n as int) =~= t@.skip(root_len(t@)));
    }
    match quality_from_suffix(&suffix) {
        Some(quality) => Ok(Chord::new(pitch, quality)),
        None => {
            let mut message = "unsupported chord quality '".to_owned();
            message.append(string_of_chars(&suffix).as_str());
            message.append("'");
            Err(ChordParseError(message))
        },
    }
}

/// The text of a riff as a tab: `s<string>f<fret>` for each position,
/// joined by arrows.
pub open spec fn tab_text(s: Seq<Position>) -> Seq<char>
    decreases s.len(),
{
    if s.len() == 0 {
        seq![]
    } else if s.len() == 1 {
        "s"@ + decimal(s[0].spec_string() as nat) + "f"@ + decimal(s[0].spec_fret() as nat)
    } else {
        tab_text(s.drop_last()) + " → "@ + "s"@ + decimal(s.last().spec_string() as nat) + "f"@
            + decimal(s.last().spec_fret() as nat)
    }
}

/// Renders a riff as a tab, such as `s4f0 → s4f2 → s3f0`.
pub fn render_tab(riff: &Riff) -> (r: String)
    ensures
        r@ == tab_text(riff.spec_sequence()),
{
    let seq = riff.sequence();
    let mut out = String::new();
    let mut i: usize = 0;
    while i < seq.len()
        invariant
            i <= seq@.len(),
            seq@ == riff.spec_sequence(),
            out@ == tab_text(seq@.take(i as int)),
        decreases seq@.len() - i,
    {
        let ghost before = out@;
        if i > 0 {
            out.append(" → ");
        }
        out.append("s");
        push_decimal(&mut out, seq[i].string() as u64);
        out.append("f");
        push_decimal(&mut out, seq[i].fret() as u64);
        proof {
            let t = seq@.take(i + 1);
            assert(t.drop_last() =~= seq@.take(i as int));
            assert(t.last() == seq@[i as int]);
            if i == 0 {
                assert(tab_text(seq@.take(0)) == Seq::<char>::empty());
                assert(out@ =~= tab_text(t));
            } else {
                assert(out@ =~= tab_text(t));
            }
        }
        i = i + 1;
    }
    assert(seq@.take(i as int) =~= seq@);
    out
}

/// The chord progression as text: chord symbols joined by arrows, or
/// `(empty)`.
pub open spec fn progression_text(progression: Seq<Chord>) -> Seq<char> {
    if progression.len() == 0 {
        "(empty)"@
    } else {
        joined(progression.map_values(|c: Chord| c.spec_symbol()), " → "@)
    }
}

/// Renders a chord progression, such as `D → G → A7`.
pub fn render_progression(progression: &[Chord]) -> (r: String)
    ensures
        r@ == progression_text(progression@),
{
    if progression.len() == 0 {
        return "(empty)".to_owned();
    }
    let ghost symbols = progression@.map_values(|c: Chord| c.spec_symbol());
    let mut out = String::new();
    let mut i: usize = 0;
    while i < progression.len()
        invariant
            i <= progression@.len(),
            symbols == progression@.map_values(|c: Chord| c.spec_symbol()),
            out@ == joined(symbols.take(i as int), " → "@),
        decreases progression@.len() - i,
    {
        if i > 0 {
            out.append(" → ");
        }
        push_symbol(&mut out, progression[i]);
        proof {
            let t = symbols.take(i + 1);
            assert(t.drop_last() =~= symbols.take(i as int));
            if i == 0 {
                assert(out@ =~= joined(t, " → "@));
            } else {
                assert(out@ =~= joined(t, " → "@));
            }
        }
        i = i + 1;
    }
    assert(symbols.take(i as int) =~= symbols);
    out
}

/// The heading of the riff at `index` of a ranked list: its rank, padded
/// with zeros to two digits, and its cost, right-aligned in three columns.
pub open spec fn riff_score_text(index: nat, cost: nat) -> Seq<char> {
    "#"@ + padded(decimal(index + 1), 2, '0') + " score "@ + padded(decimal(cost), 3, ' ')
}

/// Renders the heading of the riff at `index` of a ranked list, such as
/// `#01 score   6`.
pub fn render_riff_score(index: usize, riff: &Riff) -> (r: String)
    requires
        index < usize::MAX,
    ensures
        r@ == riff_score_text(index as nat, riff.spec_cost() as nat),
{
    let mut out = "#".to_owned();
    push_padded_decimal(&mut out, (index + 1) as u64, 2, '0');
    out.append(" score ");
    push_padded_decimal(&mut out, riff.physical_cost() as u64, 3, ' ');
    out
}

/// The tags of a riff as text, separated by commas.
pub open spec fn riff_tags_text(tags: Seq<Seq<char>>) -> Seq<char> {
    "  tags: "@ + joined(tags, ", "@)
}

/// Renders the tags of a riff, such as `  tags: target_root, net_ascending`.
pub fn render_riff_tags(riff: &Riff) -> (r: String)
    ensures
        r@ == riff_tags_text(riff.spec_tags()),
{
    let tags = riff.tags();
    let ghost parts = texts(tags@);
    let mut joined_tags = String::new();
    let mut i: usize = 0;
    while i < tags.len()
        invariant
            i <= tags@.len(),
            parts == texts(tags@),
            joined_tags@ == joined(parts.take(i as int), ", "@),
        decreases tags@.len() - i,
    {
        if i > 0 {
            joined_tags.append(", ");
        }
        joined_tags.append(tags[i].as_str());
        proof {
            let t = parts.take(i + 1);
            assert(t.drop_last() =~= parts.take(i as int));
            assert(t.last() == tags@[i as int]@);
            assert(joined_tags@ =~= joined(t, ", "@));
        }
        i = i + 1;
    }
    assert(parts.take(i as int) =~= parts);
    let mut out = "  tags: ".to_owned();
    out.append(joined_tags.as_str());
    out
}

/// The heading of the transition at `index` of a progression of `len`
/// chords.
pub open spec fn transition_heading_text(index: int, len: int) -> Seq<char> {
    "Transition "@ + decimal((index + 1) as nat) + " of "@ + decimal((len - 1) as nat)
}

/// A riff by its positions, tags and cost.
pub open spec fn riff_view(r: Riff) -> (Seq<Position>, Seq<Seq<char>>, u32) {
    (r.spec_sequence(), r.spec_tags(), r.spec_cost())
}

/// The state of Creator Mode.
#[verifier::ext_equal]
pub struct CreatorView {
    pub progression: Seq<Chord>,
    pub chord_input: Seq<char>,
    pub tag_filter_input: Seq<char>,
    pub tag_filter: Option<Seq<char>>,
    pub filtering: bool,
    pub transition_index: int,
    pub riffs: Seq<Riff>,
    pub selected: int,
    pub saved: Option<(Seq<Position>, Seq<Seq<char>>, u32)>,
    pub status: Seq<char>,
}

/// Creator Mode: the chord progression being built, the input lines, the
/// riffs generated for the transition in view, and the status line.
#[derive(Debug)]
pub struct CreatorState {
    progression: Vec<Chord>,
    chord_input: String,
    tag_filter_input: String,
    tag_filter: Option<String>,
    prompt: CreatorPrompt,
    transition_index: usize,
    riffs: Vec<Riff>,
    selected_riff: usize,
    saved_riff: Option<Riff>,
    status: String,
}

impl View for CreatorState {
    type V = CreatorView;

    closed spec fn view(&self) -> CreatorView {
        CreatorView {
            progression: self.progression@,
            chord_input: self.chord_input@,
            tag_filter_input: self.tag_filter_input@,
            tag_filter: match self.tag_filter {
                Some(s) => Some(s@),
                None => None,
            },
            filtering: self.prompt == CreatorPrompt::TagFilter,
            transition_index: self.transition_index as int,
            riffs: self.riffs@,
            selected: self.selected_riff as int,
            saved: match self.saved_riff {
                Some(r) => Some(riff_view(r)),
                None => None,
            },
            status: self.status@,
        }
    }
}

/// The transition between the chord at `index` and the next one, if both
/// exist.
pub open spec fn transition_at(progression: Seq<Chord>, index: int) -> Option<(Chord, Chord)> {
    if 0 <= index && index + 1 < progression.len() {
        Some((progression[index], progression[index + 1]))
    } else {
        None
    }
}

/// The riffs that a tag filter keeps, in order.
pub open spec fn tag_kept(riffs: Seq<Riff>, filter: Option<Seq<char>>) -> Seq<Riff> {
    match filter {
        None => riffs,
        Some(tag) => riffs.filter(|r: Riff| r.spec_tags().contains(tag)),
    }
}

/// The riffs Creator Mode lists for a transition: a search for paths of three
/// to five notes, keeping at most 96, then the tag filter.
pub open spec fn creator_riffs(from: Chord, to: Chord, filter: Option<Seq<char>>, riffs: Seq<Riff>) -> bool {
    exists|all: Seq<Riff>|
        #[trigger] is_search_result(from, to, 3, 5, 96, all) && riffs == tag_kept(all, filter)
}

/// A transition as text, such as `D → G`.
pub open spec fn transition_text(from: Chord, to: Chord) -> Seq<char> {
    from.spec_symbol() + " → "@ + to.spec_symbol()
}

/// The status line after riffs are generated for a transition.
pub open spec fn refresh_status(from: Chord, to: Chord, filter: Option<Seq<char>>, count: nat) -> Seq<
    char,
> {
    if count == 0 {
        match filter {
            Some(tag) => "No generated TABs for "@ + transition_text(from, to) + " match tag '"@ + tag
                + "'."@,
            None => "No generated TABs found for "@ + transition_text(from, to) + "."@,
        }
    } else {
        "Generated "@ + decimal(count) + " ranked TABs for "@ + transition_text(from, to)
            + ". Use j/k to scroll and Enter to select."@
    }
}

/// The riffs were generated afresh for the transition in view, the first
/// one selected; nothing else changed but the status line, which reports
/// how many riffs there are when a transition is in view.
pub open spec fn refreshed(o: CreatorView, n: CreatorView) -> bool {
    &&& n.progression == o.progression
    &&& n.chord_input == o.chord_input
    &&& n.tag_filter_input == o.tag_filter_input
    &&& n.tag_filter == o.tag_filter
    &&& n.filtering == o.filtering
    &&& n.transition_index == o.transition_index
    &&& n.saved == o.saved
    &&& n.selected == 0
    &&& match transition_at(o.progression, o.transition_index) {
        None => n.riffs.len() == 0 && n.status == o.status,
        Some((from, to)) => creator_riffs(from, to, o.tag_filter, n.riffs) && n.status
            == refresh_status(from, to, o.tag_filter, n.riffs.len()),
    }
}

/// `n - 2`, or 0 when `n < 2`.
pub open spec fn minus_two(n: int) -> int {
    if n >= 2 {
        n - 2
    } else {
        0
    }
}

/// The effect of Enter on a non-empty chord input: the chord is added and
/// riffs are generated for the last transition, or the status line reports
/// why the input is not a chord; an empty input only earns a hint.
pub open spec fn chord_added(o: CreatorView, n: CreatorView) -> bool {
    let raw = trim(o.chord_input);
    if raw.len() == 0 {
        n == (CreatorView {
            status: "Enter a chord name before adding the next progression step."@,
            ..o
        })
    } else {
        match parse_chord_result(raw) {
            Ok((root, quality)) => {
                let chord = Chord::spec_of(root, quality);
                refreshed(
                    (CreatorView {
                        progression: o.progression.push(chord),
                        chord_input: seq![],
                        transition_index: minus_two(o.progression.len() + 1int),
                        status: "Added "@ + chord.spec_symbol()
                            + ". Add another chord to generate a transition, or use h/l to revisit transitions."@,
                        ..o
                    }),
                    n,
                )
            },
            Err(msg) => n == (CreatorView {
                status: "Could not parse chord '"@ + raw + "': "@ + msg,
                ..o
            }),
        }
    }
}

/// The effect of Enter on an empty chord input: the riff in view is saved,
/// or the status line says why none can be.
pub open spec fn riff_selected(o: CreatorView, n: CreatorView) -> bool {
    if 0 <= o.selected < o.riffs.len() {
        n == (CreatorView {
            saved: Some(riff_view(o.riffs[o.selected])),
            status: "Selected TAB #"@ + decimal((o.selected + 1) as nat) + " with score "@ + decimal(
                o.riffs[o.selected].spec_cost() as nat,
            ) + "."@,
            ..o
        })
    } else if transition_at(o.progression, o.transition_index) is Some {
        n == (CreatorView {
            status: "No TAB is available to select; clear or change the tag filter."@,
            ..o
        })
    } else {
        n == (CreatorView {
            status: "Add at least two chords before selecting a generated TAB."@,
            ..o
        })
    }
}

/// The hint shown while a tag filter is typed.
pub open spec fn tag_filter_hint() -> Seq<char> {
    "Filter by tag: target_root, target_third, target_fifth, net_ascending, net_descending, contains_third, contains_sixth."@
}

/// The text with its last character removed, if it has one.
pub open spec fn without_last(s: Seq<char>) -> Seq<char> {
    if s.len() > 0 {
        s.drop_last()
    } else {
        s
    }
}

/// The effect of a key press in Creator Mode on its state, for a key that
/// leaves Creator Mode's screen as it is.
pub open spec fn creator_key(o: CreatorView, n: CreatorView, code: KeyCode) -> bool {
    if o.filtering {
        match code {
            KeyCode::Esc => n == (CreatorView {
                filtering: false,
                tag_filter_input: seq![],
                status: "Tag filter cancelled."@,
                ..o
            }),
            KeyCode::Enter => {
                let tag = trim(o.tag_filter_input);
                refreshed(
                    (CreatorView {
                        tag_filter: if tag.len() == 0 {
                            None
                        } else {
                            Some(tag)
                        },
                        tag_filter_input: seq![],
                        filtering: false,
                        ..o
                    }),
                    n,
                )
            },
            KeyCode::Backspace => n == (CreatorView {
                tag_filter_input: without_last(o.tag_filter_input),
                ..o
            }),
            KeyCode::Char(c) => n == (CreatorView {
                tag_filter_input: o.tag_filter_input.push(c),
                ..o
            }),
            _ => n == o,
        }
    } else {
        match code {
            KeyCode::Char('j') | KeyCode::Down => n == (CreatorView {
                selected: if o.riffs.len() > 0 {
                    if o.selected + 1 < o.riffs.len() {
                        o.selected + 1
                    } else {
                        o.riffs.len() - 1
                    }
                } else {
                    o.selected
                },
                ..o
            }),
            KeyCode::Char('k') | KeyCode::Up => n == (CreatorView {
                selected: if o.selected > 0 {
                    o.selected - 1
                } else {
                    0
                },
                ..o
            }),
            KeyCode::Char('h') | KeyCode::Left => if o.progression.len() < 2 {
                n == o
            } else {
                refreshed(
                    (CreatorView {
                        transition_index: if o.transition_index > 0 {
                            o.transition_index - 1
                        } else {
                            0
                        },
                        ..o
                    }),
                    n,
                )
            },
            KeyCode::Char('l') | KeyCode::Right => if o.progression.len() < 2 {
                n == o
            } else {
                refreshed(
                    (CreatorView {
                        transition_index: if o.transition_index + 1 < o.progression.len() - 2 {
                            o.transition_index + 1
                        } else {
                            o.progression.len() - 2
                        },
                        ..o
                    }),
                    n,
                )
            },
            KeyCode::Char('t') => n == (CreatorView {
                filtering: true,
                tag_filter_input: seq![],
                status: tag_filter_hint(),
                ..o
            }),
            KeyCode::Char('T') => refreshed((CreatorView { tag_filter: None, ..o }), n),
            KeyCode::Enter => if trim(o.chord_input).len() == 0 {
                riff_selected(o, n)
            } else {
                chord_added(o, n)
            },
            KeyCode::Backspace => n == (CreatorView {
                chord_input: without_last(o.chord_input),
                ..o
            }),
            KeyCode::Char(c) => n == (CreatorView { chord_input: o.chord_input.push(c), ..o }),
            _ => n == o,
        }
    }
}

/// The state invariant of Creator Mode: the selection lies within the riffs
/// and the transition index within the progression.
pub open spec fn creator_wf(v: CreatorView) -> bool {
    &&& (v.riffs.len() == 0 ==> v.selected == 0)
    &&& (v.riffs.len() > 0 ==> 0 <= v.selected < v.riffs.len())
    &&& (v.progression.len() < 2 ==> v.transition_index == 0)
    &&& (v.progression.len() >= 2 ==> 0 <= v.transition_index <= v.progression.len() - 2)
}


/// The state of Creator Mode when it is first shown.
pub open spec fn creator_start() -> CreatorView {
    CreatorView {
        progression: seq![],
        chord_input: seq![],
        tag_filter_input: seq![],
        tag_filter: None,
        filtering: false,
        transition_index: 0,
        riffs: seq![],
        selected: 0,
        saved: None,
        status: "Type a chord such as D, Gm, A7, Cmaj7, or Bdim; Enter adds it."@,
    }
}

/// Appends the displayed symbol of a chord.
fn push_symbol(out: &mut String, chord: Chord)
    ensures
        final(out)@ == old(out)@ + chord.spec_symbol(),
{
    let symbol = chord.to_string();
    out.append(symbol.as_str());
}

/// Two Creator Mode states that are alike in every part, riffs compared by
/// their positions, tags and cost.
pub open spec fn same_creator(a: CreatorView, b: CreatorView) -> bool {
    &&& a.riffs.map_values(|r: Riff| riff_view(r)) == b.riffs.map_values(|r: Riff| riff_view(r))
    &&& (CreatorView { riffs: seq![], ..a }) == (CreatorView { riffs: seq![], ..b })
}

impl Clone for CreatorState {
    fn clone(&self) -> (r: Self)
        ensures
            same_creator(r@, self@),
    {
        proof {
            use_type_invariant(self);
        }
        let progression = self.progression.clone();
        assert(progression@ =~= self.progression@);
        let mut riffs: Vec<Riff> = Vec::new();
        let mut i: usize = 0;
        while i < self.riffs.len()
            invariant
                i <= self.riffs@.len(),
                riffs@.len() == i,
                forall|k: int| 0 <= k < i ==> riff_view(#[trigger] riffs@[k]) == riff_view(self.riffs@[k]),
            decreases self.riffs@.len() - i,
        {
            riffs.push(self.riffs[i].copy());
            i = i + 1;
        }
        assert(riffs@.map_values(|r: Riff| riff_view(r)) =~= self.riffs@.map_values(
            |r: Riff| riff_view(r),
        ));
        let saved_riff = match &self.saved_riff {
            Some(riff) => Some(riff.copy()),
            None => None,
        };
        let tag_filter = match &self.tag_filter {
            Some(tag) => Some(tag.clone()),
            None => None,
        };
        CreatorState {
            progression,
            chord_input: self.chord_input.clone(),
            tag_filter_input: self.tag_filter_input.clone(),
            tag_filter,
            prompt: self.prompt,
            transition_index: self.transition_index,
            riffs,
            selected_riff: self.selected_riff,
            saved_riff,
            status: self.status.clone(),
        }
    }
}

impl CreatorState {
    #[verifier::type_invariant]
    pub open spec fn wf(&self) -> bool {
        creator_wf(self@)
    }

    fn new() -> (r: Self)
        ensures
            r@ == creator_start(),
    {
        CreatorState {
            progression: Vec::new(),
            chord_input: String::new(),
            tag_filter_input: String::new(),
            tag_filter: None,
            prompt: CreatorPrompt::Chord,
            transition_index: 0,
            riffs: Vec::new(),
            selected_riff: 0,
            saved_riff: None,
            status: "Type a chord such as D, Gm, A7, Cmaj7, or Bdim; Enter adds it.".to_owned(),
        }
    }

    pub fn progression(&self) -> (r: &[Chord])
        ensures
            r@ == self@.progression,
    {
        self.progression.as_slice()
    }

    pub fn riffs(&self) -> (r: &[Riff])
        ensures
            r@ == self@.riffs,
    {
        self.riffs.as_slice()
    }

    pub fn selected_riff_index(&self) -> (r: usize)
        ensures
            r == self@.selected,
    {
        self.selected_riff
    }

    pub fn tag_filter(&self) -> (r: Option<&str>)
        ensures
            r matches Some(t) ==> self@.tag_filter == Some(t@),
            r is None <==> self@.tag_filter is None,
    {
        match &self.tag_filter {
            Some(tag) => Some(tag.as_str()),
            None => None,
        }
    }

    pub fn status(&self) -> (r: &str)
        ensures
            r@ == self@.status,
    {
        self.status.as_str()
    }

    /// The chord being typed.
    pub fn chord_input(&self) -> (r: &str)
        ensures
            r@ == self@.chord_input,
    {
        self.chord_input.as_str()
    }

    /// The tag filter being typed.
    pub fn tag_filter_input(&self) -> (r: &str)
        ensures
            r@ == self@.tag_filter_input,
    {
        self.tag_filter_input.as_str()
    }

    /// Whether a tag filter is being typed rather than a chord.
    pub fn is_filtering(&self) -> (r: bool)
        ensures
            r == self@.filtering,
    {
        self.prompt == CreatorPrompt::TagFilter
    }

    /// Which transition of the progression is in view.
    pub fn transition_index(&self) -> (r: usize)
        ensures
            r == self@.transition_index,
    {
        self.transition_index
    }

    /// The riff chosen last, if any.
    pub fn saved_riff(&self) -> (r: Option<&Riff>)
        ensures
            r matches Some(x) ==> self@.saved == Some(riff_view(*x)),
            r is None <==> self@.saved is None,
    {
        self.saved_riff.as_ref()
    }

    /// The transition in view, if the progression has one there.
    pub fn current_transition(&self) -> (r: Option<(Chord, Chord)>)
        ensures
            r == transition_at(self@.progression, self@.transition_index),
    {
        if self.transition_index < self.progression.len() && self.transition_index + 1
            < self.progression.len() {
            Some((self.progression[self.transition_index], self.progression[self.transition_index + 1]))
        } else {
            None
        }
    }

    /// The heading of the transition in view, such as `Transition 1 of 2`,
    /// if the progression has one there.
    pub fn transition_heading(&self) -> (r: Option<String>)
        ensures
            r is Some <==> transition_at(self@.progression, self@.transition_index) is Some,
            r matches Some(t) ==> t@ == transition_heading_text(
                self@.transition_index,
                self@.progression.len() as int,
            ),
    {
        if self.transition_index < self.progression.len() && self.transition_index + 1
            < self.progression.len() {
            let mut out = "Transition ".to_owned();
            push_decimal(&mut out, (self.transition_index + 1) as u64);
            out.append(" of ");
            push_decimal(&mut out, (self.progression.len() - 1) as u64);
            Some(out)
        } else {
            None
        }
    }

    fn set_status(&mut self, status: String)
        ensures
            final(self)@ == (CreatorView { status: status@, ..old(self)@ }),
    {
        proof {
            use_type_invariant(&*self);
        }
        self.status = status;
    }

    fn add_chord_from_input(&mut self)
        ensures
            chord_added(old(self)@, final(self)@),
    {
        proof {
            use_type_invariant(&*self);
        }
        let raw = trim_str(self.chord_input.as_str()).to_owned();
        if raw.unicode_len() == 0 {
            self.set_status("Enter a chord name before adding the next progression step.".to_owned());
            return;
        }
        match parse_chord(raw.as_str()) {
            Ok(chord) => {
                proof {
                    use_type_invariant(&*self);
                }
                let mut progression = self.progression.clone();
                assert(progression@ =~= self.progression@);
                progression.push(chord);
                self.progression = progression;
                self.chord_input = String::new();
                let n = self.progression.len();
                self.transition_index = if n >= 2 {
                    n - 2
                } else {
                    0
                };
                let mut status = "Added ".to_owned();
                push_symbol(&mut status, chord);
                status.append(
                    ". Add another chord to generate a transition, or use h/l to revisit transitions.",
                );
                self.status = status;
                self.refresh_riffs();
            },
            Err(error) => {
                let mut status = "Could not parse chord '".to_owned();
                status.append(raw.as_str());
                status.append("': ");
                status.append(error.to_string().as_str());
                self.set_status(status);
            },
        }
    }

    fn refresh_riffs(&mut self)
        ensures
            refreshed(old(self)@, final(self)@),
    {
        proof {
            use_type_invariant(&*self);
        }
        self.selected_riff = 0;
        self.riffs = Vec::new();
        let transition = self.current_transition();
        let (from, to) = match transition {
            Some(pair) => pair,
            None => {
                return;
            },
        };
        let generated = match find_paths_with_limit(
            Fretboard::standard(),
            from,
            to,
            CREATOR_MIN_NOTES,
            CREATOR_MAX_NOTES,
            CREATOR_RESULT_LIMIT,
        ) {
            Ok(riffs) => riffs,
            Err(error) => {
                let mut status = "Could not generate riffs for ".to_owned();
                push_symbol(&mut status, from);
                status.append(" → ");
                push_symbol(&mut status, to);
                status.append(": ");
                status.append(error.to_string().as_str());
                self.status = status;
                return;
            },
        };
        let ghost all = generated@;
        let ghost filter = self@.tag_filter;
        let kept = match &self.tag_filter {
            Some(tag) => {
                let filters = vec![MusicalFilter::RequiredTag(tag.clone())];
                let kept = apply_musical_filters(Fretboard::standard(), generated, filters.as_slice());
                proof {
                    let t = tag@;
                    assert forall|r: Riff| meets_filters(r, filters@) == r.spec_tags().contains(t) by {
                        if meets_filters(r, filters@) {
                            assert(meets_filter(r, filters@[0]));
                        }
                    }
                    assert((|r: Riff| meets_filters(r, filters@)) =~= (|r: Riff|
                        r.spec_tags().contains(t)));
                }
                kept
            },
            None => generated,
        };
        proof {
            assert(is_search_result(from, to, 3, 5, 96, all));
            assert(kept@ == tag_kept(all, filter));
        }
        self.riffs = kept;
        let count = self.riffs.len();
        let mut status: String;
        if count == 0 {
            match &self.tag_filter {
                Some(tag) => {
                    status = "No generated TABs for ".to_owned();
                    push_symbol(&mut status, from);
                    status.append(" → ");
                    push_symbol(&mut status, to);
                    status.append(" match tag '");
                    status.append(tag.as_str());
                    status.append("'.");
                },
                None => {
                    status = "No generated TABs found for ".to_owned();
                    push_symbol(&mut status, from);
                    status.append(" → ");
                    push_symbol(&mut status, to);
                    status.append(".");
                },
            }
        } else {
            status = "Generated ".to_owned();
            push_decimal(&mut status, count as u64);
            status.append(" ranked TABs for ");
            push_symbol(&mut status, from);
            status.append(" → ");
            push_symbol(&mut status, to);
            status.append(". Use j/k to scroll and Enter to select.");
        }
        assert(status@ =~= refresh_status(from, to, filter, count as nat));
        self.status = status;
    }

    fn move_selection_down(&mut self)
        ensures
            !old(self)@.filtering ==> creator_key(old(self)@, final(self)@, KeyCode::Down),
    {
        proof {
            use_type_invariant(&*self);
        }
        if self.riffs.len() > 0 {
            let next = self.selected_riff + 1;
            self.selected_riff = if next < self.riffs.len() {
                next
            } else {
                self.riffs.len() - 1
            };
        }
    }

    fn move_selection_up(&mut self)
        ensures
            !old(self)@.filtering ==> creator_key(old(self)@, final(self)@, KeyCode::Up),
    {
        proof {
            use_type_invariant(&*self);
        }
        self.selected_riff = if self.selected_riff > 0 {
            self.selected_riff - 1
        } else {
            0
        };
    }

    fn select_riff(&mut self)
        ensures
            riff_selected(old(self)@, final(self)@),
    {
        proof {
            use_type_invariant(&*self);
        }
        if self.selected_riff < self.riffs.len() {
            let riff = self.riffs[self.selected_riff].clone();
            let cost = riff.physical_cost();
            let number = self.selected_riff + 1;
            self.saved_riff = Some(riff);
            let mut status = "Selected TAB #".to_owned();
            push_decimal(&mut status, number as u64);
            status.append(" with score ");
            push_decimal(&mut status, cost as u64);
            status.append(".");
            self.status = status;
        } else if self.current_transition().is_some() {
            self.set_status(
                "No TAB is available to select; clear or change the tag filter.".to_owned(),
            );
        } else {
            self.set_status("Add at least two chords before selecting a generated TAB.".to_owned());
        }
    }

    fn move_transition_next(&mut self)
        ensures
            !old(self)@.filtering ==> creator_key(old(self)@, final(self)@, KeyCode::Right),
    {
        proof {
            use_type_invariant(&*self);
        }
        if self.progression.len() < 2 {
            return;
        }
        let last = self.progression.len() - 2;
        let next = self.transition_index + 1;
        self.transition_index = if next < last {
            next
        } else {
            last
        };
        self.refresh_riffs();
    }

    fn move_transition_previous(&mut self)
        ensures
            !old(self)@.filtering ==> creator_key(old(self)@, final(self)@, KeyCode::Left),
    {
        proof {
            use_type_invariant(&*self);
        }
        if self.progression.len() < 2 {
            return;
        }
        self.transition_index = if self.transition_index > 0 {
            self.transition_index - 1
        } else {
            0
        };
        self.refresh_riffs();
    }

    fn start_tag_filter(&mut self)
        ensures
            !old(self)@.filtering ==> creator_key(old(self)@, final(self)@, KeyCode::Char('t')),
    {
        proof {
            use_type_invariant(&*self);
        }
        self.prompt = CreatorPrompt::TagFilter;
        self.tag_filter_input = String::new();
        self.status = "Filter by tag: target_root, target_third, target_fifth, net_ascending, net_descending, contains_third, contains_sixth.".to_owned();
    }

    fn apply_tag_filter(&mut self)
        ensures
            old(self)@.filtering ==> creator_key(old(self)@, final(self)@, KeyCode::Enter),
    {
        proof {
            use_type_invariant(&*self);
        }
        let tag = trim_str(self.tag_filter_input.as_str()).to_owned();
        self.tag_filter = if tag.unicode_len() == 0 {
            None
        } else {
            Some(tag)
        };
        self.tag_filter_input = String::new();
        self.prompt = CreatorPrompt::Chord;
        self.refresh_riffs();
    }

    fn clear_tag_filter(&mut self)
        ensures
            !old(self)@.filtering ==> creator_key(old(self)@, final(self)@, KeyCode::Char('T')),
    {
        proof {
            use_type_invariant(&*self);
        }
        self.tag_filter = None;
        self.refresh_riffs();
    }
}


/// The state of the whole interface.
#[verifier::ext_equal]
pub struct AppView {
    pub mode: AppMode,
    pub should_quit: bool,
    pub menu_index: int,
    pub creator: CreatorView,
}

/// The state of the main menu when the interface starts.
pub open spec fn app_start() -> AppView {
    AppView { mode: AppMode::MainMenu, should_quit: false, menu_index: 0, creator: creator_start() }
}

/// The effect of a key press on the interface. Control-C quits from
/// anywhere. In the main menu `j`/`k` (or the arrows) move between the two
/// entries, Enter opens the selected mode and `q` or Esc quits. In Creator
/// Mode Esc returns to the menu and `q` quits, unless a tag filter is being
/// typed; every other key acts as `creator_key` says. In Live Mode Esc
/// returns to the menu and `q` quits.
pub open spec fn app_step(o: AppView, n: AppView, key: KeyEvent) -> bool {
    if key.control && key.code == KeyCode::Char('c') {
        n == (AppView { should_quit: true, ..o })
    } else {
        match o.mode {
            AppMode::MainMenu => match key.code {
                KeyCode::Char('q') | KeyCode::Esc => n == (AppView { should_quit: true, ..o }),
                KeyCode::Char('j') | KeyCode::Down => n == (AppView {
                    menu_index: if o.menu_index < 1 {
                        o.menu_index + 1
                    } else {
                        1
                    },
                    ..o
                }),
                KeyCode::Char('k') | KeyCode::Up => n == (AppView {
                    menu_index: if o.menu_index > 0 {
                        o.menu_index - 1
                    } else {
                        0
                    },
                    ..o
                }),
                KeyCode::Enter => n == (AppView {
                    mode: if o.menu_index == 0 {
                        AppMode::Creator
                    } else {
                        AppMode::Live
                    },
                    ..o
                }),
                _ => n == o,
            },
            AppMode::Creator => if !o.creator.filtering && key.code == KeyCode::Esc {
                n == (AppView { mode: AppMode::MainMenu, ..o })
            } else if !o.creator.filtering && key.code == KeyCode::Char('q') {
                n == (AppView { should_quit: true, ..o })
            } else {
                &&& n.mode == o.mode
                &&& n.should_quit == o.should_quit
                &&& n.menu_index == o.menu_index
                &&& creator_key(o.creator, n.creator, key.code)
            },
            AppMode::Live => match key.code {
                KeyCode::Esc => n == (AppView { mode: AppMode::MainMenu, ..o }),
                KeyCode::Char('q') => n == (AppView { should_quit: true, ..o }),
                _ => n == o,
            },
        }
    }
}

/// The interface: which screen is shown, whether it should close, the main
/// menu's selection, and Creator Mode's state.
#[derive(Debug, Clone)]
pub struct App {
    mode: AppMode,
    should_quit: bool,
    menu_index: usize,
    creator: CreatorState,
}

impl View for App {
    type V = AppView;

    closed spec fn view(&self) -> AppView {
        AppView {
            mode: self.mode,
            should_quit: self.should_quit,
            menu_index: self.menu_index as int,
            creator: self.creator@,
        }
    }
}

impl Default for App {
    fn default() -> (r: Self)
        ensures
            r@ == app_start(),
    {
        App {
            mode: AppMode::MainMenu,
            should_quit: false,
            menu_index: 0,
            creator: CreatorState::new(),
        }
    }
}

impl App {
    pub fn mode(&self) -> (r: AppMode)
        ensures
            r == self@.mode,
    {
        self.mode
    }

    pub fn selected_menu_choice(&self) -> (r: MainMenuChoice)
        ensures
            r == (if self@.menu_index == 0 {
                MainMenuChoice::CreatorMode
            } else {
                MainMenuChoice::LiveMode
            }),
    {
        if self.menu_index == 0 {
            MainMenuChoice::CreatorMode
        } else {
            MainMenuChoice::LiveMode
        }
    }

    /// Which entry of the main menu is selected.
    pub fn menu_index(&self) -> (r: usize)
        ensures
            r == self@.menu_index,
    {
        self.menu_index
    }

    pub fn should_quit(&self) -> (r: bool)
        ensures
            r == self@.should_quit,
    {
        self.should_quit
    }

    pub fn creator(&self) -> (r: &CreatorState)
        ensures
            r@ == self@.creator,
    {
        &self.creator
    }

    /// Applies one key press.
    pub fn handle_key(&mut self, key: KeyEvent)
        ensures
            app_step(old(self)@, final(self)@, key),
    {
        if key.control && key.code == KeyCode::Char('c') {
            self.should_quit = true;
            return;
        }
        match self.mode {
            AppMode::MainMenu => self.handle_main_menu_key(key),
            AppMode::Creator => self.handle_creator_key(key),
            AppMode::Live => self.handle_live_key(key),
        }
    }

    fn handle_main_menu_key(&mut self, key: KeyEvent)
        requires
            old(self)@.mode == AppMode::MainMenu,
            !(key.control && key.code == KeyCode::Char('c')),
        ensures
            app_step(old(self)@, final(self)@, key),
    {
        match key.code {
            KeyCode::Char('q') | KeyCode::Esc => self.should_quit = true,
            KeyCode::Char('j') | KeyCode::Down => {
                self.menu_index = if self.menu_index < 1 {
                    self.menu_index + 1
                } else {
                    1
                };
            },
            KeyCode::Char('k') | KeyCode::Up => {
                self.menu_index = if self.menu_index > 0 {
                    self.menu_index - 1
                } else {
                    0
                };
            },
            KeyCode::Enter => {
                self.mode = match self.selected_menu_choice() {
                    MainMenuChoice::CreatorMode => AppMode::Creator,
                    MainMenuChoice::LiveMode => AppMode::Live,
                };
            },
            _ => {},
        }
    }

    fn handle_creator_key(&mut self, key: KeyEvent)
        requires
            old(self)@.mode == AppMode::Creator,
            !(key.control && key.code == KeyCode::Char('c')),
        ensures
            app_step(old(self)@, final(self)@, key),
    {
        proof {
            use_type_invariant(&self.creator);
        }
        if self.creator.prompt == CreatorPrompt::TagFilter {
            match key.code {
                KeyCode::Esc => {
                    self.creator.prompt = CreatorPrompt::Chord;
                    self.creator.tag_filter_input = String::new();
                    self.creator.status = "Tag filter cancelled.".to_owned();
                },
                KeyCode::Enter => self.creator.apply_tag_filter(),
                KeyCode::Backspace => {
                    let mut input = self.creator.tag_filter_input.clone();
                    let _ = pop_char(&mut input);
                    self.creator.tag_filter_input = input;
                },
                KeyCode::Char(c) => {
                    let mut input = self.creator.tag_filter_input.clone();
                    push_char(&mut input, c);
                    self.creator.tag_filter_input = input;
                },
                _ => {},
            }
            return;
        }
        match key.code {
            KeyCode::Esc => self.mode = AppMode::MainMenu,
            KeyCode::Char('q') => self.should_quit = true,
            KeyCode::Char('j') | KeyCode::Down => self.creator.move_selection_down(),
            KeyCode::Char('k') | KeyCode::Up => self.creator.move_selection_up(),
            KeyCode::Char('h') | KeyCode::Left => self.creator.move_transition_previous(),
            KeyCode::Char('l') | KeyCode::Right => self.creator.move_transition_next(),
            KeyCode::Char('t') => self.creator.start_tag_filter(),
            KeyCode::Char('T') => self.creator.clear_tag_filter(),
            KeyCode::Enter => {
                if trim_str(self.creator.chord_input.as_str()).unicode_len() == 0 {
                    self.creator.select_riff();
                } else {
                    self.creator.add_chord_from_input();
                }
            },
            KeyCode::Backspace => {
                let mut input = self.creator.chord_input.clone();
                let _ = pop_char(&mut input);
                self.creator.chord_input = input;
            },
            KeyCode::Char(c) => {
                let mut input = self.creator.chord_input.clone();
                push_char(&mut input, c);
                self.creator.chord_input = input;
            },
            _ => {},
        }
    }

    fn handle_live_key(&mut self, key: KeyEvent)
        requires
            old(self)@.mode == AppMode::Live,
            !(key.control && key.code == KeyCode::Char('c')),
        ensures
            app_step(old(self)@, final(self)@, key),
    {
        match key.code {
            KeyCode::Esc => self.mode = AppMode::MainMenu,
            KeyCode::Char('q') => self.should_quit = true,
            _ => {},
        }
    }
}

} // verus!
