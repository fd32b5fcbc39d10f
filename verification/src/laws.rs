//! Properties that hold across the library's functions, stated over their
//! models and proved.
use vstd::prelude::*;

use crate::fretboard::{on_board, pitch_class_at, Position};
use crate::pathfinding::{
    capped,
    found_walks,
    fret_major_grid,
    is_goal,
    is_search_result,
    length_error,
    neighbors,
    path_cost,
    riff_of_walk,
    step_cost,
    start_positions_of,
    step_to,
    target_tone_of,
    walk_le,
    walk_seqs,
    walks_all,
    walks_from,
    walks_ranked,
    walks_through,
    Riff,
};
use crate::fingering::{
    anchor_problem, anchors_error, by_finger, first_problem, hand_of, lemma_by_finger_unique, lemma_valid_anchors, retained_of, valid_hand,
    AnchorFinger,
};
use crate::fretboard::{grid, midi_at, open_midi, open_strings_sounding};
use crate::note_order::note_order;
use crate::text::{is_white_space, lemma_trim_idempotent, lemma_trim_unchanged, trim};
use crate::theory::{Chord, ChordQuality, Interval, Note, PitchClass, Scale};
use crate::tui::{chord_suffix, creator_key, creator_riffs, CreatorView, KeyCode, parse_chord_result, quality_of_suffix, root_len, root_spelling, tag_kept};
use crate::text::ascii_lower;
use crate::text::ascii_upper;
use core::cmp::Ordering;

verus! {

broadcast use {Position::lemma_at, Position::lemma_at_coordinates};

/// Two positions are next to each other: distinct, and at most one string
/// and one fret apart.
pub open spec fn adjacent(a: Position, b: Position) -> bool {
    &&& a != b
    &&& -1 <= a.spec_string() - b.spec_string() <= 1
    &&& -1 <= a.spec_fret() - b.spec_fret() <= 1
}

/// A walk over the board: every position is on the board, each one is next
/// to the one before, and no position is visited twice.
pub open spec fn is_walk(w: Seq<Position>) -> bool {
    &&& forall|i: int| 0 <= i < w.len() ==> (#[trigger] w[i]).wf()
    &&& forall|i: int|
        #![trigger adjacent(w[i], w[i + 1])]
        0 <= i < w.len() - 1 ==> adjacent(w[i], w[i + 1])
    &&& forall|i: int, j: int| 0 <= i < j < w.len() ==> #[trigger] w[i] != #[trigger] w[j]
}

/// A walk that a search from `current` to `next` may return: it starts on a
/// tone of `current`, ends on the root, third or fifth of `next`, and has
/// between `min_notes` and `max_notes` positions.
pub open spec fn is_search_walk(
    w: Seq<Position>,
    current: Chord,
    next: Chord,
    min_notes: nat,
    max_notes: nat,
) -> bool {
    &&& is_walk(w)
    &&& 1 <= w.len()
    &&& min_notes <= w.len() <= max_notes
    &&& current.spec_pitch_classes().contains(pitch_class_at(w[0]))
    &&& target_tone_of(pitch_class_at(w.last()), next) is Some
}

/// Every walk of a list is a search walk.
pub open spec fn all_search_walks(
    ws: Seq<Seq<Position>>,
    current: Chord,
    next: Chord,
    min_notes: nat,
    max_notes: nat,
) -> bool {
    forall|k: int|
        0 <= k < ws.len() ==> is_search_walk(#[trigger] ws[k], current, next, min_notes, max_notes)
}

/// Every step of a list is on the board and next to `p`.
spec fn good_steps(p: Position, steps: Seq<Position>) -> bool {
    forall|k: int| 0 <= k < steps.len() ==> (#[trigger] steps[k]).wf() && adjacent(p, steps[k])
}

proof fn lemma_good_steps_concat(p: Position, a: Seq<Position>, b: Seq<Position>)
    requires
        good_steps(p, a),
        good_steps(p, b),
    ensures
        good_steps(p, a + b),
{
    assert forall|k: int| 0 <= k < (a + b).len() implies (#[trigger] (a + b)[k]).wf() && adjacent(
        p,
        (a + b)[k],
    ) by {
        if k < a.len() {
            assert((a + b)[k] == a[k]);
        } else {
            assert((a + b)[k] == b[k - a.len()]);
        }
    }
}

proof fn lemma_step_to(p: Position, fret_delta: int, string_delta: int)
    requires
        p.wf(),
        -1 <= fret_delta <= 1,
        -1 <= string_delta <= 1,
        fret_delta != 0 || string_delta != 0,
    ensures
        good_steps(p, step_to(p, fret_delta, string_delta)),
{
    let s = p.spec_string() + string_delta;
    let f = p.spec_fret() + fret_delta;
    if on_board(s, f) {
        let q = Position::at(s as u8, f as u8);
        assert(step_to(p, fret_delta, string_delta) =~= seq![q]);
        assert(q.spec_string() == s && q.spec_fret() == f);
        assert(q != p);
    }
}

/// The neighbours of a board position are board positions next to it.
proof fn lemma_neighbors(p: Position)
    requires
        p.wf(),
    ensures
        good_steps(p, neighbors(p)),
{
    lemma_step_to(p, -1, -1);
    lemma_step_to(p, -1, 0);
    lemma_step_to(p, -1, 1);
    lemma_step_to(p, 0, -1);
    lemma_step_to(p, 0, 1);
    lemma_step_to(p, 1, -1);
    lemma_step_to(p, 1, 0);
    lemma_step_to(p, 1, 1);
    let a = step_to(p, -1, -1);
    let b = step_to(p, -1, 0);
    let c = step_to(p, -1, 1);
    let d = step_to(p, 0, -1);
    let e = step_to(p, 0, 1);
    let f = step_to(p, 1, -1);
    let g = step_to(p, 1, 0);
    let h = step_to(p, 1, 1);
    lemma_good_steps_concat(p, a, b);
    lemma_good_steps_concat(p, a + b, c);
    lemma_good_steps_concat(p, a + b + c, d);
    lemma_good_steps_concat(p, a + b + c + d, e);
    lemma_good_steps_concat(p, a + b + c + d + e, f);
    lemma_good_steps_concat(p, a + b + c + d + e + f, g);
    lemma_good_steps_concat(p, a + b + c + d + e + f + g, h);
}

proof fn lemma_walk_push(path: Seq<Position>, step: Position)
    requires
        is_walk(path),
        path.len() >= 1,
        step.wf(),
        adjacent(path.last(), step),
        !path.contains(step),
    ensures
        is_walk(path.push(step)),
{
    let w = path.push(step);
    assert forall|i: int| 0 <= i < w.len() implies (#[trigger] w[i]).wf() by {
        if i < path.len() {
            assert(w[i] == path[i]);
        }
    }
    assert forall|i: int| 0 <= i < w.len() - 1 implies #[trigger] adjacent(w[i], w[i + 1]) by {
        if i < path.len() - 1 {
            assert(w[i] == path[i] && w[i + 1] == path[i + 1]);
            assert(adjacent(path[i], path[i + 1]));
        } else {
            assert(w[i] == path.last() && w[i + 1] == step);
        }
    }
    assert forall|i: int, j: int| 0 <= i < j < w.len() implies #[trigger] w[i] != #[trigger] w[j] by {
        if j < path.len() {
            assert(w[i] == path[i] && w[j] == path[j]);
        } else {
            assert(w[i] == path[i]);
            assert(path.contains(path[i]));
        }
    }
}

proof fn lemma_all_concat(
    a: Seq<Seq<Position>>,
    b: Seq<Seq<Position>>,
    current: Chord,
    next: Chord,
    min_notes: nat,
    max_notes: nat,
)
    requires
        all_search_walks(a, current, next, min_notes, max_notes),
        all_search_walks(b, current, next, min_notes, max_notes),
    ensures
        all_search_walks(a + b, current, next, min_notes, max_notes),
{
    assert forall|k: int| 0 <= k < (a + b).len() implies is_search_walk(
        #[trigger] (a + b)[k],
        current,
        next,
        min_notes,
        max_notes,
    ) by {
        if k < a.len() {
            assert((a + b)[k] == a[k]);
        } else {
            assert((a + b)[k] == b[k - a.len()]);
        }
    }
}

proof fn lemma_walks_from_valid(
    path: Seq<Position>,
    current: Chord,
    next: Chord,
    min_notes: nat,
    max_notes: nat,
)
    requires
        is_walk(path),
        1 <= path.len() <= max_notes,
        current.spec_pitch_classes().contains(pitch_class_at(path[0])),
    ensures
        all_search_walks(walks_from(path, next, min_notes, max_notes), current, next, min_notes, max_notes),
    decreases max_notes - path.len(), 9int,
{
    let here: Seq<Seq<Position>> = if is_goal(path, next, min_notes) {
        seq![path]
    } else {
        seq![]
    };
    assert(all_search_walks(here, current, next, min_notes, max_notes));
    if path.len() < max_notes {
        let last = path.last();
        assert(last.wf()) by {
            assert(path[path.len() - 1].wf());
        }
        lemma_neighbors(last);
        lemma_walks_through_valid(path, neighbors(last), current, next, min_notes, max_notes);
        lemma_all_concat(
            here,
            walks_through(path, neighbors(last), next, min_notes, max_notes),
            current,
            next,
            min_notes,
            max_notes,
        );
    }
}

proof fn lemma_walks_through_valid(
    path: Seq<Position>,
    steps: Seq<Position>,
    current: Chord,
    next: Chord,
    min_notes: nat,
    max_notes: nat,
)
    requires
        is_walk(path),
        1 <= path.len() <= max_notes,
        current.spec_pitch_classes().contains(pitch_class_at(path[0])),
        good_steps(path.last(), steps),
    ensures
        all_search_walks(
            walks_through(path, steps, next, min_notes, max_notes),
            current,
            next,
            min_notes,
            max_notes,
        ),
    decreases max_notes - path.len(), steps.len(),
{
    if steps.len() > 0 && path.len() < max_notes {
        let step = steps.last();
        assert(good_steps(path.last(), steps.drop_last())) by {
            assert forall|k: int| 0 <= k < steps.drop_last().len() implies (
            #[trigger] steps.drop_last()[k]).wf() && adjacent(path.last(), steps.drop_last()[k]) by {
                assert(steps.drop_last()[k] == steps[k]);
            }
        }
        assert(step.wf() && adjacent(path.last(), step)) by {
            assert(steps[steps.len() - 1] == step);
        }
        lemma_walks_through_valid(path, steps.drop_last(), current, next, min_notes, max_notes);
        let child: Seq<Seq<Position>> = if path.contains(step) {
            seq![]
        } else {
            lemma_walk_push(path, step);
            assert(path.push(step)[0] == path[0]);
            lemma_walks_from_valid(path.push(step), current, next, min_notes, max_notes);
            walks_from(path.push(step), next, min_notes, max_notes)
        };
        assert(all_search_walks(child, current, next, min_notes, max_notes));
        lemma_all_concat(
            walks_through(path, steps.drop_last(), next, min_notes, max_notes),
            child,
            current,
            next,
            min_notes,
            max_notes,
        );
    }
}

proof fn lemma_walks_all_valid(
    starts: Seq<Position>,
    current: Chord,
    next: Chord,
    min_notes: nat,
    max_notes: nat,
)
    requires
        1 <= max_notes,
        forall|k: int|
            0 <= k < starts.len() ==> (#[trigger] starts[k]).wf()
                && current.spec_pitch_classes().contains(pitch_class_at(starts[k])),
    ensures
        all_search_walks(walks_all(starts, next, min_notes, max_notes), current, next, min_notes, max_notes),
    decreases starts.len(),
{
    if starts.len() > 0 {
        let start = starts.last();
        assert(start.wf() && current.spec_pitch_classes().contains(pitch_class_at(start))) by {
            assert(starts[starts.len() - 1] == start);
        }
        assert forall|k: int| 0 <= k < starts.drop_last().len() implies (
        #[trigger] starts.drop_last()[k]).wf() && current.spec_pitch_classes().contains(
            pitch_class_at(starts.drop_last()[k]),
        ) by {
            assert(starts.drop_last()[k] == starts[k]);
        }
        lemma_walks_all_valid(starts.drop_last(), current, next, min_notes, max_notes);
        let w = seq![start];
        assert(is_walk(w));
        lemma_walks_from_valid(w, current, next, min_notes, max_notes);
        lemma_all_concat(
            walks_all(starts.drop_last(), next, min_notes, max_notes),
            walks_from(w, next, min_notes, max_notes),
            current,
            next,
            min_notes,
            max_notes,
        );
    }
}

proof fn lemma_starts_valid(current: Chord)
    ensures
        forall|k: int|
            0 <= k < start_positions_of(current).len() ==> (#[trigger] start_positions_of(
                current,
            )[k]).wf() && current.spec_pitch_classes().contains(
                pitch_class_at(start_positions_of(current)[k]),
            ),
{
    let pred = |p: Position| current.spec_pitch_classes().contains(pitch_class_at(p));
    let grid = fret_major_grid();
    broadcast use vstd::seq_lib::group_filter_ensures;

    assert forall|k: int| 0 <= k < start_positions_of(current).len() implies (
    #[trigger] start_positions_of(current)[k]).wf() && current.spec_pitch_classes().contains(
        pitch_class_at(start_positions_of(current)[k]),
    ) by {
        let p = start_positions_of(current)[k];
        assert(grid.filter(pred).contains(p));
        grid.lemma_filter_contains_rev(pred, p);
        assert(grid.contains(p));
        let i = choose|i: int| 0 <= i < grid.len() && grid[i] == p;
        assert(pred(grid.filter(pred)[k]));
    }
}

/// Every path a search keeps starts on a tone of the current chord, moves
/// each time to a neighbouring position without revisiting one, ends on the
/// root, third or fifth of the next chord, and has between `min_notes` and
/// `max_notes` positions; and at most `max_paths` paths are kept.
pub proof fn law_found_walks_are_search_walks(
    current: Chord,
    next: Chord,
    min_notes: usize,
    max_notes: usize,
    max_paths: nat,
)
    requires
        length_error(min_notes, max_notes) is None,
    ensures
        found_walks(current, next, min_notes as nat, max_notes as nat, max_paths).len() <= max_paths,
        all_search_walks(
            found_walks(current, next, min_notes as nat, max_notes as nat, max_paths),
            current,
            next,
            min_notes as nat,
            max_notes as nat,
        ),
{
    let min = min_notes as nat;
    let max = max_notes as nat;
    lemma_starts_valid(current);
    let all = walks_all(start_positions_of(current), next, min, max);
    lemma_walks_all_valid(start_positions_of(current), current, next, min, max);
    let found = found_walks(current, next, min, max, max_paths);
    if all.len() <= max_paths {
        assert(found =~= all);
    } else {
        assert(found =~= all.take(max_paths as int));
        assert forall|k: int| 0 <= k < found.len() implies is_search_walk(
            #[trigger] found[k],
            current,
            next,
            min,
            max,
        ) by {
            assert(found[k] == all[k]);
        }
    }
}

/// The riffs a search returns are riffs of search walks, tagged and costed
/// from their positions, ranked by non-decreasing physical cost, and at most
/// `max_paths` of them.
pub proof fn law_search_result_riffs(
    current: Chord,
    next: Chord,
    min_notes: usize,
    max_notes: usize,
    max_paths: nat,
    riffs: Seq<Riff>,
)
    requires
        length_error(min_notes, max_notes) is None,
        is_search_result(current, next, min_notes as nat, max_notes as nat, max_paths, riffs),
    ensures
        riffs.len() <= max_paths,
        forall|k: int|
            0 <= k < riffs.len() ==> is_search_walk(
                (#[trigger] riffs[k]).spec_sequence(),
                current,
                next,
                min_notes as nat,
                max_notes as nat,
            ) && riff_of_walk(riffs[k], next),
        forall|i: int, j: int|
            0 <= i < j < riffs.len() ==> (#[trigger] riffs[i]).spec_cost() <= (
            #[trigger] riffs[j]).spec_cost(),
{
    broadcast use vstd::seq_lib::group_to_multiset_ensures;

    let min = min_notes as nat;
    let max = max_notes as nat;
    law_found_walks_are_search_walks(current, next, min_notes, max_notes, max_paths);
    let found = found_walks(current, next, min, max, max_paths);
    let ws = walk_seqs(riffs);
    assert(ws.to_multiset().len() == found.to_multiset().len());
    assert forall|k: int| 0 <= k < riffs.len() implies is_search_walk(
        (#[trigger] riffs[k]).spec_sequence(),
        current,
        next,
        min,
        max,
    ) && riff_of_walk(riffs[k], next) by {
        let w = riffs[k].spec_sequence();
        assert(ws[k] == w);
        assert(ws.contains(w));
        assert(ws.to_multiset().count(w) > 0);
        assert(found.to_multiset().count(w) > 0);
        assert(found.contains(w));
        let i = choose|i: int| 0 <= i < found.len() && found[i] == w;
        assert(is_search_walk(found[i], current, next, min, max));
    }
    assert forall|i: int, j: int| 0 <= i < j < riffs.len() implies (
    #[trigger] riffs[i]).spec_cost() <= (#[trigger] riffs[j]).spec_cost() by {
        assert(walk_le(ws[i], ws[j]));
        assert(ws[i] == riffs[i].spec_sequence() && ws[j] == riffs[j].spec_sequence());
        assert(riff_of_walk(riffs[i], next) && riff_of_walk(riffs[j], next));
    }
}


proof fn lemma_from_index(i: int)
    requires
        0 <= i < 12,
    ensures
        PitchClass::from_index(i).spec_semitone() == i,
{
}

/// A pitch class is the pitch class of its own semitone count.
pub proof fn law_pitch_class_round_trip(p: PitchClass)
    ensures
        PitchClass::spec_from_semitones(p.spec_semitone() as int) == p,
{
}

/// Semitone counts an octave apart name the same pitch class, and the pitch
/// class of a semitone count lies that count modulo 12 above C.
pub proof fn law_octave_equivalence(semitones: int)
    ensures
        PitchClass::spec_from_semitones(semitones + 12) == PitchClass::spec_from_semitones(semitones),
        PitchClass::spec_from_semitones(semitones).spec_semitone() == semitones % 12,
{
    assert((semitones + 12) % 12 == semitones % 12) by (nonlinear_arith);
    lemma_from_index(semitones % 12);
}

/// Transposing by one interval and then by another is transposing by the sum
/// of the two.
pub proof fn law_transpose_compose(p: PitchClass, a: Interval, b: Interval)
    ensures
        p.spec_transpose(a).spec_transpose(b) == PitchClass::spec_from_semitones(
            p.spec_semitone() + a.spec_semitones() + b.spec_semitones(),
        ),
{
    let x = p.spec_semitone() + a.spec_semitones();
    law_octave_equivalence(x);
    let y = b.spec_semitones() as int;
    assert((x % 12 + y) % 12 == (x + y) % 12) by (nonlinear_arith);
}

/// The displayed name of every pitch class reads back as that pitch class.
pub proof fn law_pitch_class_name_parses(p: PitchClass)
    ensures
        PitchClass::spec_parse(trim(p.spec_name())) == Some(p),
{
    reveal_strlit("C");
    reveal_strlit("C#");
    reveal_strlit("D");
    reveal_strlit("D#");
    reveal_strlit("E");
    reveal_strlit("F");
    reveal_strlit("F#");
    reveal_strlit("G");
    reveal_strlit("G#");
    reveal_strlit("A");
    reveal_strlit("A#");
    reveal_strlit("B");
    let n = p.spec_name();
    assert(n.len() >= 1 && !is_white_space(n[0]) && !is_white_space(n.last()));
    lemma_trim_unchanged(n);
}

/// Notes are ordered by absolute pitch: two valid notes compare equal only
/// when they are the same note, and one is lower than the other exactly when
/// the other is higher than the one.
pub proof fn law_note_order(a: Note, b: Note)
    requires
        a.wf(),
        b.wf(),
    ensures
        (note_order(a, b) == Some(Ordering::Equal)) <==> a == b,
        (note_order(a, b) == Some(Ordering::Less)) <==> (note_order(b, a) == Some(
            Ordering::Greater,
        )),
        (note_order(a, b) == Some(Ordering::Less)) <==> a.spec_midi() < b.spec_midi(),
{
    if a.spec_midi() == b.spec_midi() {
        Note::lemma_midi_injective(a, b);
    }
}

/// Raising a note by an octave keeps its pitch class and adds one to its
/// octave.
pub proof fn law_note_octave_up(n: Note)
    requires
        n.wf(),
        n.spec_midi() + 12 < 120,
    ensures
        Note::spec_from_midi(n.spec_midi() + 12).spec_pitch_class() == n.spec_pitch_class(),
        Note::spec_from_midi(n.spec_midi() + 12).spec_octave() == n.spec_octave() + 1,
{
    let m = n.spec_midi();
    Note::lemma_from_midi(m + 12);
    law_octave_equivalence(m);
    let s = n.spec_pitch_class().spec_semitone() as int;
    let o = n.spec_octave() as int;
    assert(m % 12 == s && m / 12 == o + 1 && (m + 12) / 12 == o + 2) by (nonlinear_arith)
        requires
            m == (o + 1) * 12 + s,
            0 <= s < 12,
    ;
    law_pitch_class_round_trip(n.spec_pitch_class());
}

/// A chord has at least three tones and its first tone is its root.
pub proof fn law_chord_starts_on_root(c: Chord)
    ensures
        c.spec_pitch_classes().len() >= 3,
        c.spec_pitch_classes()[0] == c.spec_root(),
{
    law_pitch_class_round_trip(c.spec_root());
}

/// Every scale contains its tonic.
pub proof fn law_scale_contains_tonic(s: Scale)
    ensures
        s.spec_pitch_classes().contains(s.spec_tonic()),
{
    law_pitch_class_round_trip(s.spec_tonic());
    assert(s.spec_pitch_classes()[0] == s.spec_tonic());
}

/// The grid holds 150 cells, one for each board position: every board
/// position appears in it, and no position appears twice.
pub proof fn law_grid_complete(p: Position)
    requires
        p.wf(),
    ensures
        grid().len() == 150,
        grid().contains(p),
        forall|i: int, j: int| 0 <= i < j < 150 ==> #[trigger] grid()[i] != #[trigger] grid()[j],
{
    let i = (p.spec_string() - 1) * 25 + p.spec_fret();
    assert(i / 25 == p.spec_string() - 1 && i % 25 == p.spec_fret()) by (nonlinear_arith)
        requires
            i == (p.spec_string() - 1) * 25 + p.spec_fret(),
            0 <= p.spec_fret() <= 24,
            1 <= p.spec_string(),
    ;
    assert(grid()[i] == p);
    assert forall|a: int, b: int| 0 <= a < b < 150 implies #[trigger] grid()[a] != #[trigger] grid()[b] by {
        assert(a / 25 != b / 25 || a % 25 != b % 25) by (nonlinear_arith)
            requires
                0 <= a < b,
        ;
        assert(0 <= a % 25 < 25 && 0 <= b % 25 < 25 && 0 <= a / 25 < 6 && 0 <= b / 25 < 6) by (nonlinear_arith)
            requires
                0 <= a < 150,
                0 <= b < 150,
        ;
        let ga = grid()[a];
        let gb = grid()[b];
        assert(ga == Position::at((1 + a / 25) as u8, (a % 25) as u8));
        assert(gb == Position::at((1 + b / 25) as u8, (b % 25) as u8));
        assert(ga.spec_string() == 1 + a / 25 && ga.spec_fret() == a % 25);
        assert(gb.spec_string() == 1 + b / 25 && gb.spec_fret() == b % 25);
    }
}

/// Frets twelve apart on one string sound notes an octave apart, and so the
/// same pitch class.
pub proof fn law_twelve_frets_octave(p: Position, q: Position)
    requires
        p.wf(),
        q.wf(),
        p.spec_string() == q.spec_string(),
        q.spec_fret() == p.spec_fret() + 12,
    ensures
        midi_at(q) == midi_at(p) + 12,
        pitch_class_at(q) == pitch_class_at(p),
{
    law_octave_equivalence(midi_at(p));
}

/// The positions listed for a pitch class are exactly the board positions
/// that sound it.
pub proof fn law_positions_for_pitch_class(pc: PitchClass, p: Position)
    requires
        p.wf(),
    ensures
        grid().filter(|q: Position| pitch_class_at(q) == pc).contains(p) <==> pitch_class_at(p) == pc,
{
    broadcast use vstd::seq_lib::group_filter_ensures;

    let pred = |q: Position| pitch_class_at(q) == pc;
    law_grid_complete(p);
    let i = choose|i: int| 0 <= i < grid().len() && grid()[i] == p;
    if pitch_class_at(p) == pc {
        assert(pred(grid()[i]));
    }
    if grid().filter(pred).contains(p) {
        let k = choose|k: int| 0 <= k < grid().filter(pred).len() && grid().filter(pred)[k] == p;
        assert(pred(grid().filter(pred)[k]));
    }
}

/// The anchors of a hand state: one to four of them, on distinct fingers and
/// distinct positions, none on an open string, each sounding a tone of the
/// chord, ordered by finger number.
pub proof fn law_valid_hand(v: (Chord, Seq<AnchorFinger>))
    requires
        valid_hand(v),
    ensures
        1 <= v.1.len() <= 4,
        forall|i: int, j: int|
            0 <= i < j < v.1.len() ==> (#[trigger] v.1[i]).spec_finger().spec_number() < (
            #[trigger] v.1[j]).spec_finger().spec_number() && v.1[i].spec_position()
                != v.1[j].spec_position(),
        forall|i: int|
            0 <= i < v.1.len() ==> (#[trigger] v.1[i]).spec_position().spec_fret() != 0
                && v.0.spec_pitch_classes().contains(pitch_class_at(v.1[i].spec_position())),
{
    lemma_valid_anchors(v.0, v.1);
}

/// The anchors a transition retains are exactly those held, same finger on
/// the same position, in both the previous and the new shape.
pub proof fn law_retained_anchors(previous: Seq<AnchorFinger>, current: Seq<AnchorFinger>, a: AnchorFinger)
    ensures
        retained_of(previous, current).contains(a) <==> (previous.contains(a) && current.contains(a)),
{
    broadcast use vstd::seq_lib::group_filter_ensures;

    let pred = |x: AnchorFinger| current.contains(x);
    if retained_of(previous, current).contains(a) {
        previous.lemma_filter_contains_rev(pred, a);
        let k = choose|k: int| 0 <= k < previous.filter(pred).len() && previous.filter(pred)[k] == a;
        assert(pred(previous.filter(pred)[k]));
    }
    if previous.contains(a) && current.contains(a) {
        let i = choose|i: int| 0 <= i < previous.len() && previous[i] == a;
        assert(pred(previous[i]));
    }
}

/// Filtering keeps riffs in ranked order.
proof fn lemma_filter_keeps_cost_order(s: Seq<Riff>, pred: spec_fn(Riff) -> bool)
    requires
        forall|i: int, j: int| 0 <= i < j < s.len() ==> (#[trigger] s[i]).spec_cost() <= (#[trigger] s[j]).spec_cost(),
    ensures
        forall|i: int, j: int|
            0 <= i < j < s.filter(pred).len() ==> (#[trigger] s.filter(pred)[i]).spec_cost() <= (
            #[trigger] s.filter(pred)[j]).spec_cost(),
    decreases s.len(),
{
    reveal_with_fuel(Seq::<_>::filter, 1);
    if s.len() > 0 {
        let rest = s.drop_last();
        lemma_filter_keeps_cost_order(rest, pred);
        if pred(s.last()) {
            let f = rest.filter(pred);
            assert forall|i: int, j: int| 0 <= i < j < f.push(s.last()).len() implies (
            #[trigger] f.push(s.last())[i]).spec_cost() <= (#[trigger] f.push(s.last())[j]).spec_cost() by {
                if j == f.len() {
                    let x = f[i];
                    assert(f.contains(x));
                    rest.lemma_filter_contains_rev(pred, x);
                    let m = choose|m: int| 0 <= m < rest.len() && rest[m] == x;
                    assert(s[m] == x);
                    assert(s[s.len() - 1] == s.last());
                } else {
                    assert(f.push(s.last())[i] == f[i] && f.push(s.last())[j] == f[j]);
                }
            }
        }
    }
}

/// Every riff that a tag filter keeps carries the tag.
pub proof fn law_tag_filter_keeps_tagged(riffs: Seq<Riff>, tag: Seq<char>)
    ensures
        forall|k: int|
            0 <= k < tag_kept(riffs, Some(tag)).len() ==> (#[trigger] tag_kept(riffs, Some(tag))[k]).spec_tags().contains(tag),
{
    broadcast use vstd::seq_lib::group_filter_ensures;

}

/// The riffs Creator Mode lists for a transition are at most 96 riffs of
/// search walks of three to five notes from a tone of `from` to the root,
/// third or fifth of `to`, ranked by non-decreasing physical cost, and each
/// carries the tag of the filter when one is set.
pub proof fn law_creator_riffs(from: Chord, to: Chord, filter: Option<Seq<char>>, riffs: Seq<Riff>)
    requires
        creator_riffs(from, to, filter, riffs),
    ensures
        riffs.len() <= 96,
        forall|k: int| 0 <= k < riffs.len() ==> is_search_walk((#[trigger] riffs[k]).spec_sequence(), from, to, 3, 5),
        forall|i: int, j: int| 0 <= i < j < riffs.len() ==> (#[trigger] riffs[i]).spec_cost() <= (#[trigger] riffs[j]).spec_cost(),
        filter matches Some(tag) ==> forall|k: int| 0 <= k < riffs.len() ==> (#[trigger] riffs[k]).spec_tags().contains(tag),
{
    broadcast use vstd::seq_lib::group_filter_ensures;

    let all = choose|all: Seq<Riff>| #[trigger] is_search_result(from, to, 3, 5, 96, all) && riffs == tag_kept(all, filter);
    law_search_result_riffs(from, to, 3, 5, 96, all);
    match filter {
        None => {},
        Some(tag) => {
            let pred = |r: Riff| r.spec_tags().contains(tag);
            lemma_filter_keeps_cost_order(all, pred);
            assert forall|k: int| 0 <= k < riffs.len() implies is_search_walk((#[trigger] riffs[k]).spec_sequence(), from, to, 3, 5) by {
                let r = riffs[k];
                assert(all.filter(pred).contains(r));
                all.lemma_filter_contains_rev(pred, r);
                let m = choose|m: int| 0 <= m < all.len() && all[m] == r;
                assert(is_search_walk(all[m].spec_sequence(), from, to, 3, 5));
            }
        },
    }
}


proof fn lemma_reveal_chord_texts()
    ensures
        "C"@ == seq!['C'],
        "C#"@ == seq!['C', '#'],
        "D"@ == seq!['D'],
        "D#"@ == seq!['D', '#'],
        "E"@ == seq!['E'],
        "F"@ == seq!['F'],
        "F#"@ == seq!['F', '#'],
        "G"@ == seq!['G'],
        "G#"@ == seq!['G', '#'],
        "A"@ == seq!['A'],
        "A#"@ == seq!['A', '#'],
        "B"@ == seq!['B'],
        ""@ == Seq::<char>::empty(),
        "maj"@ == seq!['m', 'a', 'j'],
        "major"@ == seq!['m', 'a', 'j', 'o', 'r'],
        "m"@ == seq!['m'],
        "min"@ == seq!['m', 'i', 'n'],
        "minor"@ == seq!['m', 'i', 'n', 'o', 'r'],
        "dim"@ == seq!['d', 'i', 'm'],
        "°"@ == seq!['°'],
        "aug"@ == seq!['a', 'u', 'g'],
        "+"@ == seq!['+'],
        "7"@ == seq!['7'],
        "dom7"@ == seq!['d', 'o', 'm', '7'],
        "maj7"@ == seq!['m', 'a', 'j', '7'],
        "major7"@ == seq!['m', 'a', 'j', 'o', 'r', '7'],
        "ma7"@ == seq!['m', 'a', '7'],
        "m7"@ == seq!['m', '7'],
        "min7"@ == seq!['m', 'i', 'n', '7'],
        "minor7"@ == seq!['m', 'i', 'n', 'o', 'r', '7'],
{
    reveal_strlit("C");
    reveal_strlit("C#");
    reveal_strlit("D");
    reveal_strlit("D#");
    reveal_strlit("E");
    reveal_strlit("F");
    reveal_strlit("F#");
    reveal_strlit("G");
    reveal_strlit("G#");
    reveal_strlit("A");
    reveal_strlit("A#");
    reveal_strlit("B");
    reveal_strlit("");
    reveal_strlit("maj");
    reveal_strlit("major");
    reveal_strlit("m");
    reveal_strlit("min");
    reveal_strlit("minor");
    reveal_strlit("dim");
    reveal_strlit("°");
    reveal_strlit("aug");
    reveal_strlit("+");
    reveal_strlit("7");
    reveal_strlit("dom7");
    reveal_strlit("maj7");
    reveal_strlit("major7");
    reveal_strlit("ma7");
    reveal_strlit("m7");
    reveal_strlit("min7");
    reveal_strlit("minor7");
    assert("C"@ =~= seq!['C']);
    assert("C#"@ =~= seq!['C', '#']);
    assert("D"@ =~= seq!['D']);
    assert("D#"@ =~= seq!['D', '#']);
    assert("E"@ =~= seq!['E']);
    assert("F"@ =~= seq!['F']);
    assert("F#"@ =~= seq!['F', '#']);
    assert("G"@ =~= seq!['G']);
    assert("G#"@ =~= seq!['G', '#']);
    assert("A"@ =~= seq!['A']);
    assert("A#"@ =~= seq!['A', '#']);
    assert("B"@ =~= seq!['B']);
    assert(""@ =~= Seq::<char>::empty());
    assert("maj"@ =~= seq!['m', 'a', 'j']);
    assert("major"@ =~= seq!['m', 'a', 'j', 'o', 'r']);
    assert("m"@ =~= seq!['m']);
    assert("min"@ =~= seq!['m', 'i', 'n']);
    assert("minor"@ =~= seq!['m', 'i', 'n', 'o', 'r']);
    assert("dim"@ =~= seq!['d', 'i', 'm']);
    assert("°"@ =~= seq!['°']);
    assert("aug"@ =~= seq!['a', 'u', 'g']);
    assert("+"@ =~= seq!['+']);
    assert("7"@ =~= seq!['7']);
    assert("dom7"@ =~= seq!['d', 'o', 'm', '7']);
    assert("maj7"@ =~= seq!['m', 'a', 'j', '7']);
    assert("major7"@ =~= seq!['m', 'a', 'j', 'o', 'r', '7']);
    assert("ma7"@ =~= seq!['m', 'a', '7']);
    assert("m7"@ =~= seq!['m', '7']);
    assert("min7"@ =~= seq!['m', 'i', 'n', '7']);
    assert("minor7"@ =~= seq!['m', 'i', 'n', 'o', 'r', '7']);
}

/// Text made of no upper-case ASCII letters is its own lower-casing.
proof fn lemma_lower_unchanged(s: Seq<char>)
    requires
        forall|i: int| 0 <= i < s.len() ==> !('A' <= #[trigger] s[i] && s[i] <= 'Z'),
    ensures
        s.map_values(|c: char| ascii_lower(c)) == s,
{
    assert(s.map_values(|c: char| ascii_lower(c)) =~= s);
}

/// The displayed symbol of every chord reads back as that chord.
pub proof fn law_chord_symbol_parses(c: Chord)
    ensures
        parse_chord_result(c.spec_symbol()) == Ok::<(crate::theory::PitchClass, crate::theory::ChordQuality), Seq<char>>((c.spec_root(), c.spec_quality())),
{
    lemma_reveal_chord_texts();
    let name = c.spec_root().spec_name();
    let suffix = c.spec_quality().spec_suffix();
    let t = c.spec_symbol();
    assert(t == name + suffix);
    assert(name.len() >= 1 && !is_white_space(name[0]));
    assert(t[0] == name[0]);
    assert(!is_white_space(t.last())) by {
        if suffix.len() > 0 {
            assert(t.last() == suffix.last());
        } else {
            assert(t.last() == name.last());
        }
    }
    lemma_trim_unchanged(t);
    assert(ascii_upper(t[0]) == t[0]);
    assert(root_len(t) == name.len()) by {
        if name.len() == 1 && t.len() >= 2 {
            assert(t[1] == suffix[0]);
        }
    }
    assert(root_spelling(t) =~= name);
    law_pitch_class_name_parses(c.spec_root());
    lemma_trim_unchanged(name);
    assert(t.skip(root_len(t)) =~= suffix);
    if suffix.len() > 0 {
        assert(!is_white_space(suffix[0]) && !is_white_space(suffix.last()));
        lemma_trim_unchanged(suffix);
    } else {
        assert(trim(suffix) =~= suffix);
    }
    lemma_lower_unchanged(suffix);
    assert(chord_suffix(t) == suffix);
    assert(quality_of_suffix(suffix) == Some(c.spec_quality()));
}


/// Parsing a pitch class reads the trimmed text: parsing a text and parsing
/// its trimmed text give the same pitch class, or the same error, which
/// carries the trimmed text.
pub proof fn law_pitch_class_parse_trims(s: Seq<char>)
    ensures
        trim(trim(s)) == trim(s),
        PitchClass::spec_parse(trim(trim(s))) == PitchClass::spec_parse(trim(s)),
{
    lemma_trim_idempotent(s);
}

/// Reading a chord symbol reads the trimmed text: a text and its trimmed
/// text read as the same chord, or fail with the same message.
pub proof fn law_chord_parse_trims(s: Seq<char>)
    ensures
        parse_chord_result(trim(s)) == parse_chord_result(s),
{
    lemma_trim_idempotent(s);
}

/// The state made of a chord and its anchors is one state: whatever
/// `HandState::new`, `HandStateMachine::anchor_chord` and
/// `HandStateMachine::transition_to` give for the same chord and anchors is
/// the same chord with the same anchors in the same order.
pub proof fn law_hand_state_determined(
    chord: Chord,
    anchors: Seq<AnchorFinger>,
    a: (Chord, Seq<AnchorFinger>),
    b: (Chord, Seq<AnchorFinger>),
)
    requires
        hand_of(chord, anchors, a),
        hand_of(chord, anchors, b),
    ensures
        a == b,
{
    lemma_by_finger_unique(a.1, b.1);
}

/// A walk of at most one position costs nothing.
pub proof fn law_cost_of_short_walk(s: Seq<Position>)
    requires
        s.len() <= 1,
    ensures
        path_cost(s) == 0,
{
}

/// A move between two distinct positions costs at least 1, and a move costs
/// the same in either direction.
pub proof fn law_step_cost(p: Position, q: Position)
    ensures
        path_cost(seq![p, q]) == step_cost(p, q),
        step_cost(p, q) == step_cost(q, p),
        p != q ==> step_cost(p, q) >= 1,
{
    assert(seq![p, q].drop_last() =~= seq![p]);
    assert(path_cost(seq![p]) == 0);
    assert(seq![p, q][0] == p && seq![p, q][1] == q);
    let df = p.spec_fret() as int - q.spec_fret() as int;
    let ds = p.spec_string() as int - q.spec_string() as int;
    assert(df * df == (-df) * (-df) && ds * ds == (-ds) * (-ds)) by (nonlinear_arith);
    if p != q {
        if df == 0 && ds == 0 {
            Position::lemma_ext(p, q);
        }
        assert(df * df + ds * ds >= 1) by (nonlinear_arith)
            requires
                df != 0 || ds != 0,
        ;
    }
}

/// The cost of two walks joined end to start is the cost of each plus the
/// cost of the move that joins them.
pub proof fn law_cost_concat(a: Seq<Position>, b: Seq<Position>)
    requires
        a.len() >= 1,
        b.len() >= 1,
    ensures
        path_cost(a + b) == path_cost(a) + path_cost(seq![a.last(), b[0]]) + path_cost(b),
    decreases b.len(),
{
    law_step_cost(a.last(), b[0]);
    if b.len() == 1 {
        assert((a + b).drop_last() =~= a);
    } else {
        assert((a + b).drop_last() =~= a + b.drop_last());
        law_cost_concat(a, b.drop_last());
        assert((a + b)[(a + b).len() - 2] == b[b.len() - 2]);
        assert((a + b)[(a + b).len() - 1] == b[b.len() - 1]);
    }
}

/// A walk costs the same taken backwards.
pub proof fn law_cost_reverse(s: Seq<Position>)
    ensures
        path_cost(s.reverse()) == path_cost(s),
    decreases s.len(),
{
    if s.len() >= 2 {
        let t = s.drop_last();
        law_cost_reverse(t);
        assert(s.reverse() =~= seq![s.last()] + t.reverse());
        law_cost_concat(seq![s.last()], t.reverse());
        assert(t.reverse()[0] == s[s.len() - 2]);
        law_step_cost(s.last(), s[s.len() - 2]);
        assert(seq![s.last()].len() == 1);
    }
}

/// How many of the frets `0..n` of a string whose open note has MIDI number
/// `open` sound a note `t` semitones above C, up to octaves.
spec fn frets_sounding(open: int, n: nat, t: int) -> nat
    decreases n,
{
    if n == 0 {
        0
    } else {
        frets_sounding(open, (n - 1) as nat, t) + if (open + (n - 1)) % 12 == t {
            1nat
        } else {
            0nat
        }
    }
}

/// The frets `0..n` sound a given pitch class once every twelve frets,
/// starting at the first fret that sounds it.
proof fn lemma_frets_sounding(open: int, n: nat, t: int)
    requires
        0 <= t < 12,
    ensures
        frets_sounding(open, n, t) == if n <= (t - open) % 12 {
            0
        } else {
            (n - 1 - (t - open) % 12) / 12 + 1
        },
    decreases n,
{
    let r = (t - open) % 12;
    if n > 0 {
        let m = (n - 1) as nat;
        lemma_frets_sounding(open, m, t);
        assert(0 <= r < 12);
        assert(((open + m) % 12 == t) <==> ((m - r) % 12 == 0)) by (nonlinear_arith)
            requires
                r == (t - open) % 12,
                0 <= t < 12,
        ;
        if m < r {
            assert((m - r) % 12 != 0) by (nonlinear_arith)
                requires
                    0 <= m < r < 12,
            ;
        } else if m > r {
            assert((m - r) / 12 == (m - 1 - r) / 12 + if (m - r) % 12 == 0 {
                1int
            } else {
                0int
            }) by (nonlinear_arith)
                requires
                    m > r,
            ;
        }
    }
}

/// A string sounds each pitch class at two of its 25 frets, and at a third
/// when its open note has that pitch class.
proof fn lemma_string_sounding(open: int, t: int)
    requires
        0 <= t < 12,
    ensures
        frets_sounding(open, 25, t) == 2 + if open % 12 == t {
            1nat
        } else {
            0nat
        },
{
    lemma_frets_sounding(open, 25, t);
    let r = (t - open) % 12;
    assert(0 <= r < 12);
    assert((r == 0) <==> (open % 12 == t)) by (nonlinear_arith)
        requires
            r == (t - open) % 12,
            0 <= t < 12,
    ;
    assert((24 - r) / 12 == if r == 0 {
        2int
    } else {
        1int
    }) by (nonlinear_arith)
        requires
            0 <= r < 12,
    ;
}

/// How many of the frets of the first `j` strings sound a note `t`
/// semitones above C, up to octaves.
spec fn strings_sounding(j: nat, t: int) -> nat
    decreases j,
{
    if j == 0 {
        0
    } else {
        strings_sounding((j - 1) as nat, t) + frets_sounding(open_midi(j as int), 25, t)
    }
}

/// A pitch class is the pitch class of a semitone count exactly when the
/// count lies its semitone number above C, up to octaves.
proof fn lemma_pitch_class_of_count(m: int, pc: PitchClass)
    ensures
        (PitchClass::spec_from_semitones(m) == pc) <==> (m % 12 == pc.spec_semitone()),
{
    lemma_from_index(m % 12);
    law_pitch_class_round_trip(pc);
}

/// Counting the grid cells that sound a pitch class, cell by cell: whole
/// strings first, then the frets of the string in progress.
proof fn lemma_cells_sounding(pc: PitchClass, k: nat)
    requires
        k <= 150,
    ensures
        grid().take(k as int).filter(|q: Position| pitch_class_at(q) == pc).len() == strings_sounding(
            k / 25,
            pc.spec_semitone() as int,
        ) + frets_sounding(open_midi((1 + k / 25) as int), k % 25, pc.spec_semitone() as int),
    decreases k,
{
    let pred = |q: Position| pitch_class_at(q) == pc;
    let t = pc.spec_semitone() as int;
    if k == 0 {
        assert(grid().take(0) =~= Seq::<Position>::empty());
        assert(Seq::<Position>::empty().filter(pred) =~= Seq::<Position>::empty()) by {
            reveal_with_fuel(Seq::<_>::filter, 1);
        }
    } else {
        let i = (k - 1) as nat;
        lemma_cells_sounding(pc, i);
        assert(grid().take(k as int) =~= grid().take(i as int).push(grid()[i as int]));
        grid().take(i as int).lemma_filter_push(grid()[i as int], pred);
        let p = grid()[i as int];
        assert(p == Position::at((1 + i / 25) as u8, (i % 25) as u8));
        let o = open_midi((1 + i / 25) as int);
        assert(midi_at(p) == o + i % 25);
        lemma_pitch_class_of_count(o + i % 25, pc);
        assert(pred(p) <==> (o + i % 25) % 12 == t);
        if i % 25 < 24 {
            assert(k / 25 == i / 25 && k % 25 == i % 25 + 1);
        } else {
            assert(k / 25 == i / 25 + 1 && k % 25 == 0);
            assert(frets_sounding(o, 25, t) == frets_sounding(o, 24, t) + if (o + 24) % 12 == t {
                1nat
            } else {
                0nat
            });
        }
    }
}

/// Each pitch class sounds at twelve positions, and at one more for each
/// open string that sounds it: 14 positions for E, 13 for A, B, D and G, and
/// 12 for the others.
pub proof fn law_positions_for_pitch_class_count(pc: PitchClass)
    ensures
        grid().filter(|q: Position| pitch_class_at(q) == pc).len() == 12 + open_strings_sounding(pc),
{
    let t = pc.spec_semitone() as int;
    lemma_cells_sounding(pc, 150);
    assert(grid().take(150) =~= grid());
    assert(frets_sounding(open_midi(7), 0, t) == 0);
    reveal_with_fuel(strings_sounding, 7);
    lemma_string_sounding(open_midi(1), t);
    lemma_string_sounding(open_midi(2), t);
    lemma_string_sounding(open_midi(3), t);
    lemma_string_sounding(open_midi(4), t);
    lemma_string_sounding(open_midi(5), t);
    lemma_string_sounding(open_midi(6), t);
    lemma_pitch_class_of_count(open_midi(1), pc);
    lemma_pitch_class_of_count(open_midi(2), pc);
    lemma_pitch_class_of_count(open_midi(3), pc);
    lemma_pitch_class_of_count(open_midi(4), pc);
    lemma_pitch_class_of_count(open_midi(5), pc);
    lemma_pitch_class_of_count(open_midi(6), pc);
}

/// Every board position next to `p` is among its neighbours.
proof fn lemma_neighbors_complete(p: Position, q: Position)
    requires
        p.wf(),
        q.wf(),
        adjacent(p, q),
    ensures
        neighbors(p).contains(q),
{
    let sd = q.spec_string() - p.spec_string();
    let fd = q.spec_fret() - p.spec_fret();
    assert(q == Position::at(q.spec_string(), q.spec_fret()));
    let t = step_to(p, fd, sd);
    assert(t =~= seq![q]);
    let n = neighbors(p);
    let a = step_to(p, -1, -1);
    let b = step_to(p, -1, 0);
    let c = step_to(p, -1, 1);
    let d = step_to(p, 0, -1);
    let e = step_to(p, 0, 1);
    let f = step_to(p, 1, -1);
    let g = step_to(p, 1, 0);
    let h = step_to(p, 1, 1);
    assert(n == a + b + c + d + e + f + g + h);
    if fd == -1 && sd == -1 {
        assert(n[0] == q);
    } else if fd == -1 && sd == 0 {
        assert(n[a.len() as int] == q);
    } else if fd == -1 && sd == 1 {
        assert(n[(a.len() + b.len()) as int] == q);
    } else if fd == 0 && sd == -1 {
        assert(n[(a.len() + b.len() + c.len()) as int] == q);
    } else if fd == 0 && sd == 1 {
        assert(n[(a.len() + b.len() + c.len() + d.len()) as int] == q);
    } else if fd == 1 && sd == -1 {
        assert(n[(a.len() + b.len() + c.len() + d.len() + e.len()) as int] == q);
    } else if fd == 1 && sd == 0 {
        assert(n[(a.len() + b.len() + c.len() + d.len() + e.len() + f.len()) as int] == q);
    } else {
        assert(n[(a.len() + b.len() + c.len() + d.len() + e.len() + f.len() + g.len()) as int]
            == q);
    }
}

/// A search through `steps` finds every walk found through one of them that
/// is not yet on the path.
proof fn lemma_walks_through_complete(
    path: Seq<Position>,
    steps: Seq<Position>,
    k: int,
    w: Seq<Position>,
    next: Chord,
    min_notes: nat,
    max_notes: nat,
)
    requires
        path.len() < max_notes,
        0 <= k < steps.len(),
        !path.contains(steps[k]),
        walks_from(path.push(steps[k]), next, min_notes, max_notes).contains(w),
    ensures
        walks_through(path, steps, next, min_notes, max_notes).contains(w),
    decreases steps.len(),
{
    let rest = walks_through(path, steps.drop_last(), next, min_notes, max_notes);
    let last = walks_from(path.push(steps.last()), next, min_notes, max_notes);
    if k == steps.len() - 1 {
        let j = choose|j: int| 0 <= j < last.len() && last[j] == w;
        assert((rest + last)[rest.len() + j] == w);
    } else {
        assert(steps.drop_last()[k] == steps[k]);
        lemma_walks_through_complete(path, steps.drop_last(), k, w, next, min_notes, max_notes);
        let j = choose|j: int| 0 <= j < rest.len() && rest[j] == w;
        let whole = walks_through(path, steps, next, min_notes, max_notes);
        assert(whole[j] == w);
    }
}

/// The search from the first `k` positions of a search walk finds the walk.
proof fn lemma_walks_from_complete(
    w: Seq<Position>,
    k: int,
    current: Chord,
    next: Chord,
    min_notes: nat,
    max_notes: nat,
)
    requires
        is_search_walk(w, current, next, min_notes, max_notes),
        1 <= k <= w.len(),
    ensures
        walks_from(w.take(k), next, min_notes, max_notes).contains(w),
    decreases w.len() - k,
{
    let path = w.take(k);
    let here = if is_goal(path, next, min_notes) {
        seq![path]
    } else {
        seq![]
    };
    if k == w.len() {
        assert(path =~= w);
        assert(is_goal(path, next, min_notes));
        assert(here[0] == w);
        if path.len() < max_notes {
            let more = walks_through(path, neighbors(path.last()), next, min_notes, max_notes);
            assert((here + more)[0] == w);
        }
    } else {
        lemma_walks_from_complete(w, k + 1, current, next, min_notes, max_notes);
        assert(w.take(k + 1) =~= path.push(w[k]));
        assert(path.last() == w[k - 1]);
        let prev = k - 1;
        assert(adjacent(w[prev], w[prev + 1]));
        assert(prev + 1 == k);
        assert(w[k - 1].wf() && w[k].wf());
        lemma_neighbors_complete(w[k - 1], w[k]);
        let steps = neighbors(w[k - 1]);
        let j = choose|j: int| 0 <= j < steps.len() && steps[j] == w[k];
        assert(!path.contains(w[k])) by {
            if path.contains(w[k]) {
                let m = choose|m: int| 0 <= m < path.len() && path[m] == w[k];
                assert(w[m] == w[k]);
            }
        }
        lemma_walks_through_complete(path, steps, j, w, next, min_notes, max_notes);
        let more = walks_through(path, steps, next, min_notes, max_notes);
        let m = choose|m: int| 0 <= m < more.len() && more[m] == w;
        assert((here + more)[here.len() + m] == w);
    }
}

/// The searches from a list of starts find everything the search from one
/// of them finds.
proof fn lemma_walks_all_complete(
    starts: Seq<Position>,
    k: int,
    w: Seq<Position>,
    next: Chord,
    min_notes: nat,
    max_notes: nat,
)
    requires
        0 <= k < starts.len(),
        walks_from(seq![starts[k]], next, min_notes, max_notes).contains(w),
    ensures
        walks_all(starts, next, min_notes, max_notes).contains(w),
    decreases starts.len(),
{
    let rest = walks_all(starts.drop_last(), next, min_notes, max_notes);
    let last = walks_from(seq![starts.last()], next, min_notes, max_notes);
    if k == starts.len() - 1 {
        let j = choose|j: int| 0 <= j < last.len() && last[j] == w;
        assert((rest + last)[rest.len() + j] == w);
    } else {
        assert(starts.drop_last()[k] == starts[k]);
        lemma_walks_all_complete(starts.drop_last(), k, w, next, min_notes, max_notes);
        let j = choose|j: int| 0 <= j < rest.len() && rest[j] == w;
        assert((rest + last)[j] == w);
    }
}

/// Every board position sounding a tone of `current` is a start of the
/// search.
proof fn lemma_start_complete(current: Chord, p: Position)
    requires
        p.wf(),
        current.spec_pitch_classes().contains(pitch_class_at(p)),
    ensures
        start_positions_of(current).contains(p),
{
    broadcast use vstd::seq_lib::group_filter_ensures;

    let grid = fret_major_grid();
    let i = p.spec_fret() * 6 + p.spec_string() - 1;
    assert(i % 6 == p.spec_string() - 1 && i / 6 == p.spec_fret()) by (nonlinear_arith)
        requires
            i == p.spec_fret() * 6 + p.spec_string() - 1,
            1 <= p.spec_string() <= 6,
    ;
    assert(0 <= i < 150);
    assert(grid[i] == p);
    let pred = |q: Position| current.spec_pitch_classes().contains(pitch_class_at(q));
    assert(pred(grid[i]));
    grid.lemma_filter_contains(pred, i);
}

/// The search is complete: every walk that it may return (from a tone of
/// `current` over neighbouring positions without revisiting one, to the
/// root, third or fifth of `next`, of between `min_notes` and `max_notes`
/// positions) is among the walks it finds, and is kept whenever the search
/// finds no more than `max_paths` walks in all.
pub proof fn law_search_complete(
    current: Chord,
    next: Chord,
    min_notes: nat,
    max_notes: nat,
    max_paths: nat,
    w: Seq<Position>,
)
    requires
        is_search_walk(w, current, next, min_notes, max_notes),
    ensures
        walks_all(start_positions_of(current), next, min_notes, max_notes).contains(w),
        walks_all(start_positions_of(current), next, min_notes, max_notes).len() <= max_paths
            ==> found_walks(current, next, min_notes, max_notes, max_paths).contains(w),
{
    let starts = start_positions_of(current);
    lemma_walks_from_complete(w, 1, current, next, min_notes, max_notes);
    assert(w[0].wf());
    lemma_start_complete(current, w[0]);
    let k = choose|k: int| 0 <= k < starts.len() && starts[k] == w[0];
    assert(w.take(1) =~= seq![starts[k]]);
    lemma_walks_all_complete(starts, k, w, next, min_notes, max_notes);
    let all = walks_all(starts, next, min_notes, max_notes);
    if all.len() <= max_paths {
        assert(found_walks(current, next, min_notes, max_notes, max_paths) =~= all);
    }
}

/// Reading a root name followed by a suffix: the root is read back, and the
/// quality is the one the lower-cased suffix names.
proof fn lemma_parse_spelled(p: PitchClass, s: Seq<char>)
    requires
        s.len() >= 1,
        !is_white_space(ascii_lower(s[0])),
        !is_white_space(ascii_lower(s.last())),
        ascii_lower(s[0]) != 'b',
        ascii_lower(s[0]) != '#',
    ensures
        parse_chord_result(p.spec_name() + s) == match quality_of_suffix(
            s.map_values(|c: char| ascii_lower(c)),
        ) {
            Some(q) => Ok::<(PitchClass, crate::theory::ChordQuality), Seq<char>>((p, q)),
            None => Err("unsupported chord quality '"@ + s.map_values(|c: char| ascii_lower(c))
                + "'"@),
        },
{
    lemma_reveal_chord_texts();
    let name = p.spec_name();
    let t = name + s;
    assert(!is_white_space(s[0]) && !is_white_space(s.last()));
    assert(s[0] != 'b' && s[0] != '#');
    assert(name.len() >= 1 && !is_white_space(name[0]) && !is_white_space(name.last()));
    assert(t[0] == name[0]);
    assert(t.last() == s.last());
    lemma_trim_unchanged(t);
    assert(ascii_upper(t[0]) == t[0]);
    assert(root_len(t) == name.len()) by {
        if name.len() == 1 {
            assert(t[1] == s[0]);
        } else {
            assert(t[1] == name[1]);
        }
    }
    assert(root_spelling(t) =~= name);
    law_pitch_class_name_parses(p);
    lemma_trim_unchanged(name);
    assert(t.skip(root_len(t)) =~= s);
    lemma_trim_unchanged(s);
    assert(chord_suffix(t) == s.map_values(|c: char| ascii_lower(c)));
}

/// Every accepted spelling of each chord quality, in any letter case,
/// after any root name, reads back as that root and quality: nothing or
/// `maj`/`major` is major; `m`/`min`/`minor` minor; `dim`/`°` diminished;
/// `aug`/`+` augmented; `7`/`dom7` dominant seventh; `maj7`/`major7`/`ma7`
/// major seventh; and `m7`/`min7`/`minor7` minor seventh.
pub proof fn law_quality_spellings(p: PitchClass, s: Seq<char>)
    ensures
        s.len() == 0 ==> parse_chord_result(p.spec_name() + s) == Ok::<
            (PitchClass, ChordQuality),
            Seq<char>,
        >((p, ChordQuality::Major)),
        (s.map_values(|c: char| ascii_lower(c)) == "maj"@ || s.map_values(
            |c: char| ascii_lower(c),
        ) == "major"@) ==> parse_chord_result(p.spec_name() + s) == Ok::<
            (PitchClass, ChordQuality),
            Seq<char>,
        >((p, ChordQuality::Major)),
        (s.map_values(|c: char| ascii_lower(c)) == "m"@ || s.map_values(|c: char| ascii_lower(c))
            == "min"@ || s.map_values(|c: char| ascii_lower(c)) == "minor"@) ==> parse_chord_result(
            p.spec_name() + s,
        ) == Ok::<(PitchClass, ChordQuality), Seq<char>>((p, ChordQuality::Minor)),
        (s.map_values(|c: char| ascii_lower(c)) == "dim"@ || s.map_values(|c: char| ascii_lower(c))
            == "°"@) ==> parse_chord_result(p.spec_name() + s) == Ok::<
            (PitchClass, ChordQuality),
            Seq<char>,
        >((p, ChordQuality::Diminished)),
        (s.map_values(|c: char| ascii_lower(c)) == "aug"@ || s.map_values(|c: char| ascii_lower(c))
            == "+"@) ==> parse_chord_result(p.spec_name() + s) == Ok::<
            (PitchClass, ChordQuality),
            Seq<char>,
        >((p, ChordQuality::Augmented)),
        (s.map_values(|c: char| ascii_lower(c)) == "7"@ || s.map_values(|c: char| ascii_lower(c))
            == "dom7"@) ==> parse_chord_result(p.spec_name() + s) == Ok::<
            (PitchClass, ChordQuality),
            Seq<char>,
        >((p, ChordQuality::DominantSeventh)),
        (s.map_values(|c: char| ascii_lower(c)) == "maj7"@ || s.map_values(|c: char| ascii_lower(c))
            == "major7"@ || s.map_values(|c: char| ascii_lower(c)) == "ma7"@) ==> parse_chord_result(
            p.spec_name() + s,
        ) == Ok::<(PitchClass, ChordQuality), Seq<char>>((p, ChordQuality::MajorSeventh)),
        (s.map_values(|c: char| ascii_lower(c)) == "m7"@ || s.map_values(|c: char| ascii_lower(c))
            == "min7"@ || s.map_values(|c: char| ascii_lower(c)) == "minor7"@) ==> parse_chord_result(
            p.spec_name() + s,
        ) == Ok::<(PitchClass, ChordQuality), Seq<char>>((p, ChordQuality::MinorSeventh)),
{
    lemma_reveal_chord_texts();
    let l = s.map_values(|c: char| ascii_lower(c));
    if s.len() == 0 {
        let c = Chord::spec_of(p, ChordQuality::Major);
        law_chord_symbol_parses(c);
        Chord::lemma_spec_of(p, ChordQuality::Major);
        assert(c.spec_symbol() =~= p.spec_name() + s);
    } else {
        assert(l[0] == ascii_lower(s[0]));
        assert(l.last() == ascii_lower(s.last()));
        if l.len() >= 1 && (l[0] == 'm' || l[0] == 'd' || l[0] == 'a' || l[0] == '7' || l[0] == '°'
            || l[0] == '+') && (l.last() == 'j' || l.last() == 'r' || l.last() == 'm' || l.last()
            == 'n' || l.last() == '°' || l.last() == 'g' || l.last() == '+' || l.last() == '7') {
            lemma_parse_spelled(p, s);
        }
    }
}

proof fn lemma_first_problem_none_from(chord: Chord, anchors: Seq<AnchorFinger>, i: int)
    requires
        0 <= i <= anchors.len(),
        forall|k: int| i <= k < anchors.len() ==> anchor_problem(chord, anchors, k) is None,
    ensures
        first_problem(chord, anchors, i) is None,
    decreases anchors.len() - i,
{
    if i < anchors.len() {
        lemma_first_problem_none_from(chord, anchors, i + 1);
    }
}

/// Anchor validation accepts every good shape: one to four anchors, on
/// distinct fingers and distinct positions, none on an open string, each
/// sounding a tone of the chord, are valid anchors for the chord, so that
/// `HandState::new`, `anchor_chord` and `transition_to` succeed on them.
pub proof fn law_good_anchors_accepted(chord: Chord, anchors: Seq<AnchorFinger>)
    requires
        1 <= anchors.len() <= 4,
        forall|i: int, j: int|
            0 <= i < j < anchors.len() ==> (#[trigger] anchors[i]).spec_finger() != (
            #[trigger] anchors[j]).spec_finger() && anchors[i].spec_position()
                != anchors[j].spec_position(),
        forall|i: int|
            0 <= i < anchors.len() ==> (#[trigger] anchors[i]).spec_position().spec_fret() != 0
                && chord.spec_pitch_classes().contains(pitch_class_at(anchors[i].spec_position())),
    ensures
        anchors_error(chord, anchors) is None,
{
    assert forall|k: int| 0 <= k < anchors.len() implies anchor_problem(chord, anchors, k) is None by {
        assert(!exists|j: int| 0 <= j < k && (#[trigger] anchors[j]).spec_finger()
            == anchors[k].spec_finger());
        assert(!exists|j: int| 0 <= j < k && (#[trigger] anchors[j]).spec_position()
            == anchors[k].spec_position());
        assert(anchors[k].spec_position().spec_fret() != 0);
    }
    lemma_first_problem_none_from(chord, anchors, 0);
}

/// In Creator Mode, outside the tag prompt, `k` (or Up) moves the selection
/// up by one riff, staying on the first riff, and changes nothing else; `j`
/// (or Down) then `k` comes back to the same riff when there is a riff
/// below, and `k` then `j` when there is a riff above.
pub proof fn law_creator_selection_moves(
    o: CreatorView,
    m: CreatorView,
    n: CreatorView,
    down: KeyCode,
    up: KeyCode,
)
    requires
        !o.filtering,
        0 <= o.selected,
        down == KeyCode::Char('j') || down == KeyCode::Down,
        up == KeyCode::Char('k') || up == KeyCode::Up,
    ensures
        creator_key(o, m, up) && o.selected > 0 ==> m.selected == o.selected - 1,
        creator_key(o, m, up) && o.selected == 0 ==> m.selected == 0,
        creator_key(o, m, up) ==> m == (CreatorView { selected: m.selected, ..o }),
        creator_key(o, m, down) && creator_key(m, n, up) && o.selected + 1 < o.riffs.len() ==> n
            == o,
        creator_key(o, m, up) && creator_key(m, n, down) && 0 < o.selected < o.riffs.len() ==> n
            == o,
{
}

/// The pitch class `k` semitones above `p` (below it, for negative `k`).
pub open spec fn above(p: PitchClass, k: int) -> PitchClass {
    PitchClass::spec_from_semitones(p.spec_semitone() + k)
}

/// The tones of a chord, in order: the root; the third, a major third (4
/// semitones) above the root in major, augmented, dominant seventh and major
/// seventh chords and a minor third (3) in minor, diminished and minor
/// seventh chords; the fifth, a perfect fifth (7) above the root, except a
/// diminished fifth (6) in a diminished chord and an augmented fifth (8) in
/// an augmented one; and in the three seventh chords a seventh, which lies a
/// semitone below the root in a major seventh chord and a whole tone below
/// it in dominant and minor seventh chords. Triads have three tones.
pub proof fn law_chord_tones(c: Chord)
    ensures
        c.spec_pitch_classes()[0] == c.spec_root(),
        (c.spec_quality() == ChordQuality::DominantSeventh || c.spec_quality()
            == ChordQuality::MajorSeventh || c.spec_quality() == ChordQuality::MinorSeventh)
            ==> c.spec_pitch_classes().len() == 4,
        (c.spec_quality() == ChordQuality::Major || c.spec_quality() == ChordQuality::Minor
            || c.spec_quality() == ChordQuality::Diminished || c.spec_quality()
            == ChordQuality::Augmented) ==> c.spec_pitch_classes().len() == 3,
        (c.spec_quality() == ChordQuality::Major || c.spec_quality() == ChordQuality::Augmented
            || c.spec_quality() == ChordQuality::DominantSeventh || c.spec_quality()
            == ChordQuality::MajorSeventh) ==> c.spec_pitch_classes()[1] == above(c.spec_root(), 4),
        (c.spec_quality() == ChordQuality::Minor || c.spec_quality() == ChordQuality::Diminished
            || c.spec_quality() == ChordQuality::MinorSeventh) ==> c.spec_pitch_classes()[1]
            == above(c.spec_root(), 3),
        (c.spec_quality() == ChordQuality::Major || c.spec_quality() == ChordQuality::Minor
            || c.spec_quality() == ChordQuality::DominantSeventh || c.spec_quality()
            == ChordQuality::MajorSeventh || c.spec_quality() == ChordQuality::MinorSeventh)
            ==> c.spec_pitch_classes()[2] == above(c.spec_root(), 7),
        c.spec_quality() == ChordQuality::Diminished ==> c.spec_pitch_classes()[2] == above(
            c.spec_root(),
            6,
        ),
        c.spec_quality() == ChordQuality::Augmented ==> c.spec_pitch_classes()[2] == above(
            c.spec_root(),
            8,
        ),
        c.spec_quality() == ChordQuality::MajorSeventh ==> c.spec_pitch_classes()[3] == above(
            c.spec_root(),
            -1,
        ),
        (c.spec_quality() == ChordQuality::DominantSeventh || c.spec_quality()
            == ChordQuality::MinorSeventh) ==> c.spec_pitch_classes()[3] == above(c.spec_root(), -2),
{
    let r = c.spec_root().spec_semitone() as int;
    law_pitch_class_round_trip(c.spec_root());
    law_octave_equivalence(r - 1);
    law_octave_equivalence(r - 2);
    assert(r - 1 + 12 == r + 11 && r - 2 + 12 == r + 10);
}

/// A flat lowers a letter by a semitone and a sharp raises it by one: for
/// every letter that names a pitch class, the letter followed by `b` names
/// the pitch class a semitone below it, and followed by `#` the one a
/// semitone above; a character that names no pitch class names none with
/// either.
pub proof fn law_accidentals(l: char)
    ensures
        PitchClass::spec_parse(seq![l]) matches Some(p) ==> PitchClass::spec_parse(seq![l, 'b'])
            == Some(above(p, -1)) && PitchClass::spec_parse(seq![l, '#']) == Some(above(p, 1)),
        PitchClass::spec_parse(seq![l]) is None ==> PitchClass::spec_parse(seq![l, 'b']) is None
            && PitchClass::spec_parse(seq![l, '#']) is None,
{
    assert(seq![l].len() == 1 && seq![l][0] == l);
    assert(seq![l, 'b'].len() == 2 && seq![l, 'b'][0] == l && seq![l, 'b'][1] == 'b');
    assert(seq![l, '#'].len() == 2 && seq![l, '#'][0] == l && seq![l, '#'][1] == '#');
}

/// The seven letters name the degrees of the C major scale: C, D, E, F, G,
/// A and B, in order.
pub proof fn law_letters_name_c_major(s: Scale)
    requires
        s.spec_tonic() == PitchClass::C,
        s.spec_kind() == crate::theory::ScaleKind::Major,
    ensures
        s.spec_pitch_classes().len() == 7,
        PitchClass::spec_parse(seq!['C']) == Some(s.spec_pitch_classes()[0]),
        PitchClass::spec_parse(seq!['D']) == Some(s.spec_pitch_classes()[1]),
        PitchClass::spec_parse(seq!['E']) == Some(s.spec_pitch_classes()[2]),
        PitchClass::spec_parse(seq!['F']) == Some(s.spec_pitch_classes()[3]),
        PitchClass::spec_parse(seq!['G']) == Some(s.spec_pitch_classes()[4]),
        PitchClass::spec_parse(seq!['A']) == Some(s.spec_pitch_classes()[5]),
        PitchClass::spec_parse(seq!['B']) == Some(s.spec_pitch_classes()[6]),
{
    assert(seq!['C'][0] == 'C' && seq!['D'][0] == 'D' && seq!['E'][0] == 'E' && seq!['F'][0] == 'F'
        && seq!['G'][0] == 'G' && seq!['A'][0] == 'A' && seq!['B'][0] == 'B');
}

} // verus!
