//! Depth-first search for riffs: walks over neighbouring fretboard positions
//! from a tone of the current chord to the root, third or fifth of the next
//! chord, ranked by physical cost.
use vstd::prelude::*;

use crate::fretboard::{midi_at, on_board, pitch_class_at, Fretboard, Position};
use crate::text::decimal;
use crate::text::{push_decimal, str_equal};
use crate::theory::{Chord, PitchClass};

verus! {

broadcast use {Position::lemma_at, Position::lemma_at_coordinates};

/// Default cap used by the convenience search functions so the search
/// remains responsive even when a transition has many possible local walks.
pub const DEFAULT_MAX_PATHS: usize = 256;

/// Maximum number of notes a searched path may contain.
pub const MAX_PATH_NOTES: usize = 16;

/// The cost of one move: the square of the frets moved plus the square of
/// the strings crossed, so that long jumps cost far more than small steps.
pub open spec fn step_cost(a: Position, b: Position) -> int {
    let df = a.spec_fret() as int - b.spec_fret() as int;
    let ds = a.spec_string() as int - b.spec_string() as int;
    df * df + ds * ds
}

/// The physical cost of a walk: the sum of the costs of its moves.
pub open spec fn path_cost(s: Seq<Position>) -> int
    decreases s.len(),
{
    if s.len() < 2 {
        0
    } else {
        path_cost(s.drop_last()) + step_cost(s[s.len() - 2], s[s.len() - 1])
    }
}

/// The cost of a prefix never exceeds the cost of the whole walk.
pub proof fn lemma_path_cost_prefix(s: Seq<Position>, k: int)
    requires
        0 <= k <= s.len(),
    ensures
        path_cost(s.take(k)) <= path_cost(s),
        path_cost(s) >= 0,
    decreases s.len(),
{
    if s.len() >= 2 {
        lemma_step_cost_bound(s[s.len() - 2], s[s.len() - 1]);
        lemma_path_cost_prefix(s.drop_last(), if k < s.len() {
            k
        } else {
            s.len() - 1
        });
        if k < s.len() {
            assert(s.drop_last().take(k) =~= s.take(k));
        } else {
            assert(s.take(k) =~= s);
        }
    } else {
        if k < 2 {
            assert(s.take(k).len() < 2);
        }
    }
}

/// A move costs nothing only when it stays in place, and at most 601
/// between two board positions.
pub proof fn lemma_step_cost_bound(a: Position, b: Position)
    ensures
        step_cost(a, b) >= 0,
        a.wf() && b.wf() ==> step_cost(a, b) <= 601,
{
    let df = a.spec_fret() as int - b.spec_fret() as int;
    let ds = a.spec_string() as int - b.spec_string() as int;
    assert(df * df >= 0 && ds * ds >= 0) by (nonlinear_arith);
    if a.wf() && b.wf() {
        assert(df * df <= 576 && ds * ds <= 25) by (nonlinear_arith)
            requires
                -24 <= df <= 24,
                -5 <= ds <= 5,
        ;
    }
}

/// A walk over board positions costs at most 601 per move.
pub proof fn lemma_path_cost_bound(s: Seq<Position>)
    requires
        forall|i: int| 0 <= i < s.len() ==> (#[trigger] s[i]).wf(),
    ensures
        0 <= path_cost(s) <= 601 * s.len(),
    decreases s.len(),
{
    if s.len() >= 2 {
        lemma_path_cost_bound(s.drop_last());
        assert(s[s.len() - 2].wf() && s[s.len() - 1].wf());
        lemma_step_cost_bound(s[s.len() - 2], s[s.len() - 1]);
    }
}

/// The physical cost of a walk: the sum over its moves of the square of the
/// frets moved plus the square of the strings crossed.
pub fn physical_cost(path: &[Position]) -> (r: u32)
    requires
        path_cost(path@) <= u32::MAX,
    ensures
        r == path_cost(path@),
{
    let n = path.len();
    if n < 2 {
        return 0;
    }
    let mut total: u32 = 0;
    let mut i: usize = 1;
    while i < n
        invariant
            n == path@.len(),
            1 <= i <= n,
            path_cost(path@) <= u32::MAX,
            total == path_cost(path@.take(i as int)),
        decreases n - i,
    {
        let a = path[i - 1];
        let b = path[i];
        let df: u32 = if a.fret() >= b.fret() {
            (a.fret() - b.fret()) as u32
        } else {
            (b.fret() - a.fret()) as u32
        };
        let ds: u32 = if a.string() >= b.string() {
            (a.string() - b.string()) as u32
        } else {
            (b.string() - a.string()) as u32
        };
        proof {
            let t = path@.take(i + 1);
            assert(t.drop_last() =~= path@.take(i as int));
            assert(t[t.len() - 2] == a && t[t.len() - 1] == b);
            lemma_path_cost_prefix(path@, i + 1);
            assert(df * df <= 576 && ds * ds <= 25) by (nonlinear_arith)
                requires
                    df <= 24,
                    ds <= 5,
            ;
            let x = a.spec_fret() as int - b.spec_fret() as int;
            let y = a.spec_string() as int - b.spec_string() as int;
            assert(df * df == x * x && ds * ds == y * y) by (nonlinear_arith)
                requires
                    df == x || df == -x,
                    ds == y || ds == -y,
            ;
            assert(step_cost(a, b) == df * df + ds * ds);
        }
        total = total + df * df + ds * ds;
        i = i + 1;
    }
    assert(path@.take(n as int) =~= path@);
    total
}

/// A sequence of fretboard positions connecting two chords.
#[derive(Debug, PartialEq, Eq)]
pub struct Riff {
    sequence: Vec<Position>,
    tags: Vec<String>,
    physical_cost: u32,
}

/// The text of each string of a list.
pub open spec fn texts(v: Seq<String>) -> Seq<Seq<char>> {
    v.map_values(|s: String| s@)
}

impl Riff {
    pub closed spec fn spec_sequence(&self) -> Seq<Position> {
        self.sequence@
    }

    pub closed spec fn spec_tags(&self) -> Seq<Seq<char>> {
        texts(self.tags@)
    }

    pub closed spec fn spec_cost(&self) -> u32 {
        self.physical_cost
    }

    /// The stored cost is the physical cost of the positions.
    #[verifier::type_invariant]
    pub open spec fn wf(&self) -> bool {
        self.spec_cost() == path_cost(self.spec_sequence())
    }

    /// A riff whose physical cost is derived from its positions.
    pub fn new(sequence: Vec<Position>, tags: Vec<String>) -> (r: Self)
        requires
            path_cost(sequence@) <= u32::MAX,
        ensures
            r.spec_sequence() == sequence@,
            r.spec_tags() == texts(tags@),
            r.spec_cost() == path_cost(sequence@),
    {
        let physical_cost = physical_cost(sequence.as_slice());
        Riff { sequence, tags, physical_cost }
    }

    pub fn sequence(&self) -> (r: &[Position])
        ensures
            r@ == self.spec_sequence(),
    {
        self.sequence.as_slice()
    }

    pub fn tags(&self) -> (r: &[String])
        ensures
            texts(r@) == self.spec_tags(),
    {
        self.tags.as_slice()
    }

    pub fn physical_cost(&self) -> (r: u32)
        ensures
            r == self.spec_cost(),
            r == path_cost(self.spec_sequence()),
    {
        proof {
            use_type_invariant(self);
        }
        self.physical_cost
    }

    /// Whether one of the riff's tags is exactly `tag`.
    pub fn has_tag(&self, tag: &str) -> (r: bool)
        ensures
            r == self.spec_tags().contains(tag@),
    {
        let mut i: usize = 0;
        while i < self.tags.len()
            invariant
                i <= self.tags@.len(),
                forall|k: int| 0 <= k < i ==> self.tags@[k]@ != tag@,
            decreases self.tags@.len() - i,
        {
            if str_equal(self.tags[i].as_str(), tag) {
                assert(self.spec_tags()[i as int] == tag@);
                return true;
            }
            i = i + 1;
        }
        assert forall|k: int| 0 <= k < self.spec_tags().len() implies self.spec_tags()[k]
            != tag@ by {
            assert(self.spec_tags()[k] == self.tags@[k]@);
        }
        false
    }

    /// A copy of the riff.
    pub fn copy(&self) -> (r: Riff)
        ensures
            r.spec_sequence() == self.spec_sequence(),
            r.spec_tags() == self.spec_tags(),
            r.spec_cost() == self.spec_cost(),
    {
        proof {
            use_type_invariant(self);
        }
        let sequence = self.sequence.clone();
        let tags = self.tags.clone();
        proof {
            assert(sequence@ =~= self.sequence@);
            assert(texts(tags@) =~= texts(self.tags@));
        }
        Riff { sequence, tags, physical_cost: self.physical_cost }
    }
}

impl Clone for Riff {
    fn clone(&self) -> (r: Self)
        ensures
            r.spec_sequence() == self.spec_sequence(),
            r.spec_tags() == self.spec_tags(),
            r.spec_cost() == self.spec_cost(),
    {
        self.copy()
    }
}

/// Which tone of the next chord a path ends on.
#[derive(Debug, Clone, Copy, PartialEq, Eq, Structural)]
pub enum TargetChordTone {
    Root,
    Third,
    Fifth,
}

impl TargetChordTone {
    pub open spec fn spec_tag(self) -> Seq<char> {
        match self {
            TargetChordTone::Root => "target_root"@,
            TargetChordTone::Third => "target_third"@,
            TargetChordTone::Fifth => "target_fifth"@,
        }
    }

    fn tag(self) -> (r: &'static str)
        ensures
            r@ == self.spec_tag(),
    {
        match self {
            TargetChordTone::Root => "target_root",
            TargetChordTone::Third => "target_third",
            TargetChordTone::Fifth => "target_fifth",
        }
    }
}

/// Why a path search was refused.
#[derive(Debug, Clone, Copy, PartialEq, Eq, Structural)]
pub enum PathfindingError {
    PathTooShort { notes: usize },
    InvalidLengthRange { min_notes: usize, max_notes: usize },
    PathTooLong { notes: usize, max_notes: usize },
}

impl PathfindingError {
    /// The message that the error displays.
    pub open spec fn spec_message(self) -> Seq<char> {
        match self {
            PathfindingError::PathTooShort { notes } => "path length "@ + decimal(notes as nat)
                + " must include at least start and target notes"@,
            PathfindingError::InvalidLengthRange { min_notes, max_notes } => "path length range "@
                + decimal(min_notes as nat) + "..="@ + decimal(max_notes as nat)
                + " must have min <= max"@,
            PathfindingError::PathTooLong { notes, max_notes } => "path length "@ + decimal(
                notes as nat,
            ) + " exceeds the V1 DFS limit of "@ + decimal(max_notes as nat) + " notes"@,
        }
    }

    pub fn to_string(&self) -> (r: String)
        ensures
            r@ == self.spec_message(),
    {
        match self {
            PathfindingError::PathTooShort { notes } => {
                let mut out = "path length ".to_owned();
                push_decimal(&mut out, *notes as u64);
                out.append(" must include at least start and target notes");
                out
            },
            PathfindingError::InvalidLengthRange { min_notes, max_notes } => {
                let mut out = "path length range ".to_owned();
                push_decimal(&mut out, *min_notes as u64);
                out.append("..=");
                push_decimal(&mut out, *max_notes as u64);
                out.append(" must have min <= max");
                out
            },
            PathfindingError::PathTooLong { notes, max_notes } => {
                let mut out = "path length ".to_owned();
                push_decimal(&mut out, *notes as u64);
                out.append(" exceeds the V1 DFS limit of ");
                push_decimal(&mut out, *max_notes as u64);
                out.append(" notes");
                out
            },
        }
    }
}

/// Which error, if any, a requested length range is refused with.
pub open spec fn length_error(min_notes: usize, max_notes: usize) -> Option<PathfindingError> {
    if min_notes < 2 {
        Some(PathfindingError::PathTooShort { notes: min_notes })
    } else if min_notes > max_notes {
        Some(PathfindingError::InvalidLengthRange { min_notes, max_notes })
    } else if max_notes > 16 {
        Some(PathfindingError::PathTooLong { notes: max_notes, max_notes: 16 })
    } else {
        None
    }
}

fn validate_lengths(min_notes: usize, max_notes: usize) -> (r: Result<(), PathfindingError>)
    ensures
        length_error(min_notes, max_notes) is None ==> r is Ok,
        length_error(min_notes, max_notes) matches Some(e) ==> r == Err::<(), PathfindingError>(e),
{
    if min_notes < 2 {
        return Err(PathfindingError::PathTooShort { notes: min_notes });
    }
    if min_notes > max_notes {
        return Err(PathfindingError::InvalidLengthRange { min_notes, max_notes });
    }
    if max_notes > MAX_PATH_NOTES {
        return Err(PathfindingError::PathTooLong { notes: max_notes, max_notes: MAX_PATH_NOTES });
    }
    Ok(())
}

/// The position `fret_delta` frets and `string_delta` strings away, if it is
/// on the board.
pub open spec fn step_to(p: Position, fret_delta: int, string_delta: int) -> Seq<Position> {
    let s = p.spec_string() + string_delta;
    let f = p.spec_fret() + fret_delta;
    if on_board(s, f) {
        seq![Position::at(s as u8, f as u8)]
    } else {
        seq![]
    }
}

/// The board positions next to `p` (one fret and/or one string away),
/// ordered by fret and then by string.
pub open spec fn neighbors(p: Position) -> Seq<Position> {
    step_to(p, -1, -1) + step_to(p, -1, 0) + step_to(p, -1, 1) + step_to(p, 0, -1) + step_to(
        p,
        0,
        1,
    ) + step_to(p, 1, -1) + step_to(p, 1, 0) + step_to(p, 1, 1)
}

fn push_step(out: &mut Vec<Position>, p: Position, fret_delta: i8, string_delta: i8)
    requires
        -1 <= fret_delta <= 1,
        -1 <= string_delta <= 1,
    ensures
        final(out)@ == old(out)@ + step_to(p, fret_delta as int, string_delta as int),
{
    let s: i8 = p.string() as i8 + string_delta;
    let f: i8 = p.fret() as i8 + fret_delta;
    if 1 <= s && s <= 6 && 0 <= f && f <= 24 {
        out.push(Position::new(s as u8, f as u8).unwrap());
    }
    assert(out@ =~= old(out)@ + step_to(p, fret_delta as int, string_delta as int));
}

/// The neighbours of a position, ordered by fret and then by string.
fn local_neighbors(position: Position) -> (r: Vec<Position>)
    ensures
        r@ == neighbors(position),
        r@.len() <= 8,
{
    let mut out: Vec<Position> = Vec::new();
    push_step(&mut out, position, -1, -1);
    push_step(&mut out, position, -1, 0);
    push_step(&mut out, position, -1, 1);
    push_step(&mut out, position, 0, -1);
    push_step(&mut out, position, 0, 1);
    push_step(&mut out, position, 1, -1);
    push_step(&mut out, position, 1, 0);
    push_step(&mut out, position, 1, 1);
    assert(out@ =~= neighbors(position));
    out
}

/// Which tone of `next` a pitch class is: the first of root, third and fifth
/// that it equals.
pub open spec fn target_tone_of(pc: PitchClass, next: Chord) -> Option<TargetChordTone> {
    let pcs = next.spec_pitch_classes();
    if pcs[0] == pc {
        Some(TargetChordTone::Root)
    } else if pcs[1] == pc {
        Some(TargetChordTone::Third)
    } else if pcs[2] == pc {
        Some(TargetChordTone::Fifth)
    } else {
        None
    }
}

/// The root, third and fifth of a chord, with the tone each one is.
pub fn target_pitch_classes(chord: Chord) -> (r: Vec<(PitchClass, TargetChordTone)>)
    ensures
        r@.len() == 3,
        r@[0] == (chord.spec_pitch_classes()[0], TargetChordTone::Root),
        r@[1] == (chord.spec_pitch_classes()[1], TargetChordTone::Third),
        r@[2] == (chord.spec_pitch_classes()[2], TargetChordTone::Fifth),
{
    let pcs = chord.pitch_classes();
    let mut out: Vec<(PitchClass, TargetChordTone)> = Vec::new();
    out.push((pcs[0], TargetChordTone::Root));
    out.push((pcs[1], TargetChordTone::Third));
    out.push((pcs[2], TargetChordTone::Fifth));
    out
}

/// The tone of the next chord sounded at a position, if any.
fn target_tone(
    fretboard: Fretboard,
    position: Position,
    targets: &Vec<(PitchClass, TargetChordTone)>,
    next: Ghost<Chord>,
) -> (r: Option<TargetChordTone>)
    requires
        targets@.len() == 3,
        targets@[0] == (next@.spec_pitch_classes()[0], TargetChordTone::Root),
        targets@[1] == (next@.spec_pitch_classes()[1], TargetChordTone::Third),
        targets@[2] == (next@.spec_pitch_classes()[2], TargetChordTone::Fifth),
    ensures
        r == target_tone_of(pitch_class_at(position), next@),
{
    let pc = fretboard.note_at(position).pitch_class();
    if targets[0].0 == pc {
        Some(targets[0].1)
    } else if targets[1].0 == pc {
        Some(targets[1].1)
    } else if targets[2].0 == pc {
        Some(targets[2].1)
    } else {
        None
    }
}

/// The tags of a walk tagged with `tone`: the tone's tag, then
/// `net_ascending` or `net_descending` when the last note is higher or lower
/// than the first.
pub open spec fn tone_tags(path: Seq<Position>, tone: TargetChordTone) -> Seq<Seq<char>> {
    let first = midi_at(path[0]);
    let last = midi_at(path.last());
    seq![tone.spec_tag()] + (if last > first {
        seq!["net_ascending"@]
    } else if last < first {
        seq!["net_descending"@]
    } else {
        seq![]
    })
}

/// The tags of a walk that ends on a tone of `next`, tagged with that tone.
pub open spec fn walk_tags(path: Seq<Position>, next: Chord) -> Seq<Seq<char>> {
    tone_tags(path, target_tone_of(pitch_class_at(path.last()), next)->0)
}

/// A riff found for a walk: its positions, tags and cost.
pub open spec fn riff_of_walk(r: Riff, next: Chord) -> bool {
    &&& r.spec_tags() == walk_tags(r.spec_sequence(), next)
    &&& r.spec_cost() == path_cost(r.spec_sequence())
}

fn build_riff(fretboard: Fretboard, path: &Vec<Position>, target_tone: TargetChordTone) -> (r: Riff)
    requires
        path@.len() >= 1,
        path_cost(path@) <= u32::MAX,
    ensures
        r.spec_sequence() == path@,
        r.spec_tags() == tone_tags(path@, target_tone),
        r.spec_cost() == path_cost(path@),
{
    let mut tags: Vec<String> = Vec::new();
    tags.push(target_tone.tag().to_owned());
    let first_note = fretboard.note_at(path[0]);
    let last_note = fretboard.note_at(path[path.len() - 1]);
    let first = first_note.midi_number();
    let last = last_note.midi_number();
    if last > first {
        tags.push("net_ascending".to_owned());
    } else if last < first {
        tags.push("net_descending".to_owned());
    }
    let r = Riff::new(path.clone(), tags);
    proof {
        assert(texts(tags@) =~= tone_tags(path@, target_tone));
    }
    r
}


/// A walk that the search keeps: at least `min_notes` long and ending on a
/// root, third or fifth of `next`.
pub open spec fn is_goal(path: Seq<Position>, next: Chord, min_notes: nat) -> bool {
    &&& path.len() >= min_notes
    &&& path.len() >= 1
    &&& target_tone_of(pitch_class_at(path.last()), next) is Some
}

/// The walks found from `path`, in search order: `path` itself when it is a
/// goal, then, while it has fewer than `max_notes` positions, every walk that
/// continues through a neighbour of its last position not yet on it,
/// neighbour by neighbour.
pub open spec fn walks_from(path: Seq<Position>, next: Chord, min_notes: nat, max_notes: nat) -> Seq<
    Seq<Position>,
>
    decreases max_notes - path.len(), 9int,
{
    let here = if is_goal(path, next, min_notes) {
        seq![path]
    } else {
        seq![]
    };
    if path.len() == 0 || path.len() >= max_notes {
        here
    } else {
        here + walks_through(path, neighbors(path.last()), next, min_notes, max_notes)
    }
}

/// The walks that continue `path` through each of `steps`, in order,
/// skipping the positions already on `path`.
pub open spec fn walks_through(
    path: Seq<Position>,
    steps: Seq<Position>,
    next: Chord,
    min_notes: nat,
    max_notes: nat,
) -> Seq<Seq<Position>>
    decreases max_notes - path.len(), steps.len(),
{
    if steps.len() == 0 || path.len() >= max_notes {
        seq![]
    } else {
        let step = steps.last();
        walks_through(path, steps.drop_last(), next, min_notes, max_notes) + (if path.contains(
            step,
        ) {
            seq![]
        } else {
            walks_from(path.push(step), next, min_notes, max_notes)
        })
    }
}

/// All positions, fret by fret from the open strings, and within a fret
/// string by string from string 1.
pub open spec fn fret_major_grid() -> Seq<Position> {
    Seq::new(150, |i: int| Position::at((1 + i % 6) as u8, (i / 6) as u8))
}

/// The positions a search starts from: those sounding a tone of `current`,
/// ordered by fret and then by string.
pub open spec fn start_positions_of(current: Chord) -> Seq<Position> {
    fret_major_grid().filter(|p: Position| current.spec_pitch_classes().contains(pitch_class_at(p)))
}

/// The walks found from each start, start by start.
pub open spec fn walks_all(starts: Seq<Position>, next: Chord, min_notes: nat, max_notes: nat) -> Seq<
    Seq<Position>,
>
    decreases starts.len(),
{
    if starts.len() == 0 {
        seq![]
    } else {
        walks_all(starts.drop_last(), next, min_notes, max_notes) + walks_from(
            seq![starts.last()],
            next,
            min_notes,
            max_notes,
        )
    }
}

/// `acc` extended by the items of `more` while it holds fewer than `cap`.
pub open spec fn capped<T>(acc: Seq<T>, more: Seq<T>, cap: nat) -> Seq<T> {
    if acc.len() >= cap {
        acc
    } else if more.len() <= cap - acc.len() {
        acc + more
    } else {
        acc + more.take(cap - acc.len())
    }
}

pub proof fn lemma_capped_assoc<T>(acc: Seq<T>, a: Seq<T>, b: Seq<T>, cap: nat)
    ensures
        capped(capped(acc, a, cap), b, cap) == capped(acc, a + b, cap),
{
    if acc.len() < cap {
        if a.len() <= cap - acc.len() {
            assert(acc + a + b =~= acc + (a + b));
            if (a + b).len() > cap - acc.len() {
                assert((acc + a) + b.take(cap - acc.len() - a.len()) =~= acc + (a + b).take(
                    cap - acc.len(),
                ));
            }
        } else {
            assert((a + b).take(cap - acc.len()) =~= a.take(cap - acc.len()));
        }
    }
}

/// The walks a search keeps: the first `max_paths` walks in search order.
pub open spec fn found_walks(
    current: Chord,
    next: Chord,
    min_notes: nat,
    max_notes: nat,
    max_paths: nat,
) -> Seq<Seq<Position>> {
    capped(seq![], walks_all(start_positions_of(current), next, min_notes, max_notes), max_paths)
}

/// The position sequences of a list of riffs.
pub open spec fn walk_seqs(rs: Seq<Riff>) -> Seq<Seq<Position>> {
    rs.map_values(|r: Riff| r.spec_sequence())
}

proof fn lemma_walks_through_split(
    path: Seq<Position>,
    steps: Seq<Position>,
    k: int,
    next: Chord,
    min_notes: nat,
    max_notes: nat,
) -> (rest: Seq<Seq<Position>>)
    requires
        0 <= k <= steps.len(),
    ensures
        walks_through(path, steps, next, min_notes, max_notes) == walks_through(
            path,
            steps.take(k),
            next,
            min_notes,
            max_notes,
        ) + rest,
    decreases steps.len(),
{
    if k == steps.len() {
        assert(steps.take(k) =~= steps);
        assert(walks_through(path, steps, next, min_notes, max_notes) + seq![] =~= walks_through(
            path,
            steps,
            next,
            min_notes,
            max_notes,
        ));
        seq![]
    } else if path.len() >= max_notes {
        assert(seq![] + seq![] =~= Seq::<Seq<Position>>::empty());
        seq![]
    } else {
        let d = lemma_walks_through_split(path, steps.drop_last(), k, next, min_notes, max_notes);
        assert(steps.drop_last().take(k) =~= steps.take(k));
        let step = steps.last();
        let child = if path.contains(step) {
            seq![]
        } else {
            walks_from(path.push(step), next, min_notes, max_notes)
        };
        let t = walks_through(path, steps.take(k), next, min_notes, max_notes);
        assert(t + d + child =~= t + (d + child));
        d + child
    }
}

proof fn lemma_walks_all_split(starts: Seq<Position>, k: int, next: Chord, min_notes: nat, max_notes: nat) -> (rest: Seq<Seq<Position>>)
    requires
        0 <= k <= starts.len(),
    ensures
        walks_all(starts, next, min_notes, max_notes) == walks_all(starts.take(k), next, min_notes, max_notes) + rest,
    decreases starts.len(),
{
    if k == starts.len() {
        assert(starts.take(k) =~= starts);
        assert(walks_all(starts, next, min_notes, max_notes) + seq![] =~= walks_all(starts, next, min_notes, max_notes));
        seq![]
    } else {
        let d = lemma_walks_all_split(starts.drop_last(), k, next, min_notes, max_notes);
        assert(starts.drop_last().take(k) =~= starts.take(k));
        let w = walks_from(seq![starts.last()], next, min_notes, max_notes);
        let t = walks_all(starts.take(k), next, min_notes, max_notes);
        assert(t + d + w =~= t + (d + w));
        d + w
    }
}

/// Once `acc` extended by `a` is full, what follows `a` is never kept.
proof fn lemma_capped_prefix_full<T>(acc: Seq<T>, a: Seq<T>, b: Seq<T>, cap: nat)
    requires
        capped(acc, a, cap).len() >= cap,
    ensures
        capped(acc, a + b, cap) == capped(acc, a, cap),
{
    lemma_capped_assoc(acc, a, b, cap);
}

/// The state shared by every step of one search.
struct DfsContext {
    fretboard: Fretboard,
    next: Chord,
    targets: Vec<(PitchClass, TargetChordTone)>,
    min_notes: usize,
    max_notes: usize,
    max_paths: usize,
}

impl DfsContext {
    spec fn wf(&self) -> bool {
        &&& self.targets@.len() == 3
        &&& self.targets@[0] == (self.next.spec_pitch_classes()[0], TargetChordTone::Root)
        &&& self.targets@[1] == (self.next.spec_pitch_classes()[1], TargetChordTone::Third)
        &&& self.targets@[2] == (self.next.spec_pitch_classes()[2], TargetChordTone::Fifth)
        &&& 2 <= self.min_notes <= self.max_notes <= 16
    }
}

fn contains_position(path: &Vec<Position>, p: Position) -> (r: bool)
    ensures
        r == path@.contains(p),
{
    let mut i: usize = 0;
    while i < path.len()
        invariant
            i <= path@.len(),
            forall|k: int| 0 <= k < i ==> path@[k] != p,
        decreases path@.len() - i,
    {
        if path[i] == p {
            assert(path@[i as int] == p);
            return true;
        }
        i = i + 1;
    }
    false
}

#[verifier::rlimit(40)]
fn dfs(ctx: &DfsContext, path: &mut Vec<Position>, riffs: &mut Vec<Riff>)
    requires
        ctx.wf(),
        1 <= old(path)@.len() <= ctx.max_notes,
        forall|i: int| 0 <= i < old(path)@.len() ==> (#[trigger] old(path)@[i]).wf(),
        forall|k: int| 0 <= k < old(riffs)@.len() ==> riff_of_walk(#[trigger] old(riffs)@[k], ctx.next),
    ensures
        final(path)@ == old(path)@,
        walk_seqs(final(riffs)@) == capped(
            walk_seqs(old(riffs)@),
            walks_from(old(path)@, ctx.next, ctx.min_notes as nat, ctx.max_notes as nat),
            ctx.max_paths as nat,
        ),
        forall|k: int| 0 <= k < final(riffs)@.len() ==> riff_of_walk(#[trigger] final(riffs)@[k], ctx.next),
    decreases ctx.max_notes - old(path)@.len(),
{
    let ghost p0 = path@;
    let ghost r0 = walk_seqs(riffs@);
    let ghost next = ctx.next;
    let ghost min = ctx.min_notes as nat;
    let ghost max = ctx.max_notes as nat;
    let ghost cap = ctx.max_paths as nat;
    let ghost here = if is_goal(p0, next, min) {
        seq![p0]
    } else {
        seq![]
    };
    if riffs.len() >= ctx.max_paths {
        return;
    }
    let current = path[path.len() - 1];
    if path.len() >= ctx.min_notes {
        let tone = target_tone(ctx.fretboard, current, &ctx.targets, Ghost(ctx.next));
        if let Some(tone) = tone {
            proof {
                lemma_path_cost_bound(path@);
            }
            let riff = build_riff(ctx.fretboard, path, tone);
            riffs.push(riff);
            proof {
                assert(walk_seqs(riffs@) =~= r0 + here);
            }
            if riffs.len() >= ctx.max_paths {
                proof {
                    lemma_walks_through_split(p0, neighbors(p0.last()), 0, next, min, max);
                    if p0.len() < max {
                        lemma_capped_prefix_full(r0, here, walks_through(p0, neighbors(p0.last()), next, min, max), cap);
                    }
                }
                return;
            }
        } else {
            assert(here =~= Seq::<Seq<Position>>::empty());
            assert(walk_seqs(riffs@) =~= r0 + here);
        }
    } else {
        assert(here =~= Seq::<Seq<Position>>::empty());
        assert(walk_seqs(riffs@) =~= r0 + here);
    }
    if path.len() == ctx.max_notes {
        return;
    }
    let nbrs = local_neighbors(current);
    let ghost steps = nbrs@;
    proof {
        assert(walks_through(p0, steps.take(0), next, min, max) =~= Seq::<Seq<Position>>::empty());
        assert(here + seq![] =~= here);
    }
    let mut j: usize = 0;
    while j < nbrs.len()
        invariant
            ctx.wf(),
            next == ctx.next,
            min == ctx.min_notes as nat,
            max == ctx.max_notes as nat,
            cap == ctx.max_paths as nat,
            path@ == p0,
            old(path)@ == p0,
            r0 == walk_seqs(old(riffs)@),
            here == (if is_goal(p0, next, min) {
                seq![p0]
            } else {
                seq![]
            }),
            1 <= p0.len() < max,
            current == p0.last(),
            steps == nbrs@,
            steps == neighbors(current),
            j <= steps.len(),
            forall|i: int| 0 <= i < p0.len() ==> (#[trigger] p0[i]).wf(),
            walk_seqs(riffs@) == capped(r0, here + walks_through(p0, steps.take(j as int), next, min, max), cap),
            forall|k: int| 0 <= k < riffs@.len() ==> riff_of_walk(#[trigger] riffs@[k], next),
            riffs@.len() < cap,
        decreases steps.len() - j,
    {
        let step = nbrs[j];
        proof {
            use_type_invariant(&step);
            assert(steps.take(j + 1).drop_last() =~= steps.take(j as int));
            assert(steps.take(j + 1).last() == step);
        }
        let ghost before = walk_seqs(riffs@);
        let ghost w_j = walks_through(p0, steps.take(j as int), next, min, max);
        if contains_position(path, step) {
            proof {
                assert(walks_through(p0, steps.take(j + 1), next, min, max) =~= w_j + seq![]);
                assert(here + (w_j + seq![]) =~= here + w_j);
            }
        } else {
            path.push(step);
            proof {
                assert forall|i: int| 0 <= i < path@.len() implies (#[trigger] path@[i]).wf() by {
                    if i < p0.len() {
                        assert(path@[i] == p0[i]);
                    }
                }
            }
            assert(path@.len() == p0.len() + 1);
            dfs(ctx, path, riffs);
            let _ = path.pop();
            proof {
                assert(path@ =~= p0);
                let child = walks_from(p0.push(step), next, min, max);
                lemma_capped_assoc(r0, here + w_j, child, cap);
                assert(here + w_j + child =~= here + walks_through(p0, steps.take(j + 1), next, min, max));
            }
        }
        assert(path@ == p0);
        if riffs.len() >= ctx.max_paths {
            proof {
                let rest = lemma_walks_through_split(p0, steps, j + 1, next, min, max);
                let a = here + walks_through(p0, steps.take(j + 1), next, min, max);
                lemma_capped_prefix_full(r0, a, rest, cap);
                assert(a + rest =~= here + walks_through(p0, steps, next, min, max));
                assert(walks_from(p0, next, min, max) == here + walks_through(p0, steps, next, min, max));
            }
            return;
        }
        j = j + 1;
    }
    proof {
        assert(steps.take(steps.len() as int) =~= steps);
    }
}


fn contains_pitch_class(pcs: &Vec<PitchClass>, pc: PitchClass) -> (r: bool)
    ensures
        r == pcs@.contains(pc),
{
    let mut i: usize = 0;
    while i < pcs.len()
        invariant
            i <= pcs@.len(),
            forall|k: int| 0 <= k < i ==> pcs@[k] != pc,
        decreases pcs@.len() - i,
    {
        if pcs[i] == pc {
            assert(pcs@[i as int] == pc);
            return true;
        }
        i = i + 1;
    }
    false
}

/// The positions sounding a tone of `current`, ordered by fret and then by
/// string.
fn start_positions(fretboard: Fretboard, current: Chord) -> (r: Vec<Position>)
    ensures
        r@ == start_positions_of(current),
{
    let pcs = current.pitch_classes();
    let ghost pred = |p: Position| current.spec_pitch_classes().contains(pitch_class_at(p));
    let mut out: Vec<Position> = Vec::new();
    let mut fret: u8 = 0;
    while fret <= 24
        invariant
            fret <= 25,
            pcs@ == current.spec_pitch_classes(),
            pred == (|p: Position| current.spec_pitch_classes().contains(pitch_class_at(p))),
            out@ == fret_major_grid().take(fret * 6).filter(pred),
        decreases 25 - fret,
    {
        let mut string: u8 = 1;
        while string <= 6
            invariant
                fret <= 24,
                1 <= string <= 7,
                pcs@ == current.spec_pitch_classes(),
                pred == (|p: Position| current.spec_pitch_classes().contains(pitch_class_at(p))),
                out@ == fret_major_grid().take(fret * 6 + string - 1).filter(pred),
            decreases 7 - string,
        {
            let p = Position::new(string, fret).unwrap();
            let ghost k: int = fret * 6 + string - 1;
            proof {
                assert(fret_major_grid()[k] == p) by {
                    assert(k % 6 == string - 1 && k / 6 == fret) by (nonlinear_arith)
                        requires
                            k == fret * 6 + string - 1,
                            1 <= string <= 6,
                            0 <= fret,
                    ;
                }
                reveal_with_fuel(Seq::<_>::filter, 1);
                assert(fret_major_grid().take(k + 1).drop_last() =~= fret_major_grid().take(k));
            }
            if contains_pitch_class(&pcs, fretboard.note_at(p).pitch_class()) {
                out.push(p);
            }
            string = string + 1;
        }
        fret = fret + 1;
    }
    assert(fret_major_grid().take(150) =~= fret_major_grid());
    out
}

/// Positions ordered by string and then by fret, as `Position` is ordered.
pub open spec fn position_key(p: Position) -> int {
    p.spec_string() as int * 256 + p.spec_fret() as int
}

/// Lexicographic order of walks by their positions; a proper prefix comes
/// first.
pub open spec fn seq_le(a: Seq<Position>, b: Seq<Position>) -> bool
    decreases a.len(),
{
    if a.len() == 0 {
        true
    } else if b.len() == 0 {
        false
    } else if position_key(a[0]) != position_key(b[0]) {
        position_key(a[0]) < position_key(b[0])
    } else {
        seq_le(a.drop_first(), b.drop_first())
    }
}

/// The ranking of found walks: by physical cost, then by positions.
pub open spec fn walk_le(a: Seq<Position>, b: Seq<Position>) -> bool {
    ||| path_cost(a) < path_cost(b)
    ||| (path_cost(a) == path_cost(b) && seq_le(a, b))
}

/// Every walk ranks no later than each walk after it.
pub open spec fn walks_ranked(s: Seq<Seq<Position>>) -> bool {
    forall|i: int, j: int| 0 <= i < j < s.len() ==> walk_le(#[trigger] s[i], #[trigger] s[j])
}

pub proof fn lemma_seq_le_total(a: Seq<Position>, b: Seq<Position>)
    ensures
        seq_le(a, b) || seq_le(b, a),
    decreases a.len(),
{
    if a.len() > 0 && b.len() > 0 && position_key(a[0]) == position_key(b[0]) {
        lemma_seq_le_total(a.drop_first(), b.drop_first());
    }
}

pub proof fn lemma_seq_le_trans(a: Seq<Position>, b: Seq<Position>, c: Seq<Position>)
    requires
        seq_le(a, b),
        seq_le(b, c),
    ensures
        seq_le(a, c),
    decreases a.len(),
{
    if a.len() > 0 && b.len() > 0 && c.len() > 0 && position_key(a[0]) == position_key(b[0])
        && position_key(b[0]) == position_key(c[0]) {
        lemma_seq_le_trans(a.drop_first(), b.drop_first(), c.drop_first());
    }
}

pub proof fn lemma_walk_le_total(a: Seq<Position>, b: Seq<Position>)
    ensures
        walk_le(a, b) || walk_le(b, a),
{
    lemma_seq_le_total(a, b);
}

pub proof fn lemma_walk_le_trans(a: Seq<Position>, b: Seq<Position>, c: Seq<Position>)
    requires
        walk_le(a, b),
        walk_le(b, c),
    ensures
        walk_le(a, c),
{
    if path_cost(a) == path_cost(b) && path_cost(b) == path_cost(c) {
        lemma_seq_le_trans(a, b, c);
    }
}

fn position_key_of(p: Position) -> (r: u32)
    ensures
        r == position_key(p),
{
    p.string() as u32 * 256 + p.fret() as u32
}

/// Whether riff `a` ranks no later than riff `b`.
fn riff_le(a: &Riff, b: &Riff) -> (r: bool)
    requires
        a.spec_cost() == path_cost(a.spec_sequence()),
        b.spec_cost() == path_cost(b.spec_sequence()),
    ensures
        r == walk_le(a.spec_sequence(), b.spec_sequence()),
{
    if a.physical_cost() != b.physical_cost() {
        return a.physical_cost() < b.physical_cost();
    }
    let sa = a.sequence();
    let sb = b.sequence();
    let mut i: usize = 0;
    assert(sa@.skip(0) =~= sa@);
    assert(sb@.skip(0) =~= sb@);
    while i < sa.len() && i < sb.len()
        invariant
            sa@ == a.spec_sequence(),
            sb@ == b.spec_sequence(),
            path_cost(sa@) == path_cost(sb@),
            i <= sa@.len(),
            i <= sb@.len(),
            seq_le(sa@, sb@) == seq_le(sa@.skip(i as int), sb@.skip(i as int)),
        decreases sa@.len() - i,
    {
        let ka = position_key_of(sa[i]);
        let kb = position_key_of(sb[i]);
        proof {
            assert(sa@.skip(i as int)[0] == sa@[i as int]);
            assert(sb@.skip(i as int)[0] == sb@[i as int]);
            assert(sa@.skip(i as int).drop_first() =~= sa@.skip(i + 1));
            assert(sb@.skip(i as int).drop_first() =~= sb@.skip(i + 1));
        }
        if ka != kb {
            assert(seq_le(sa@.skip(i as int), sb@.skip(i as int)) == (ka < kb));
            return ka < kb;
        }
        i = i + 1;
    }
    i == sa.len()
}

/// Ranks riffs by physical cost, then by positions.
fn sort_riffs(riffs: Vec<Riff>, next: Ghost<Chord>) -> (r: Vec<Riff>)
    requires
        forall|k: int| 0 <= k < riffs@.len() ==> riff_of_walk(#[trigger] riffs@[k], next@),
    ensures
        walk_seqs(r@).to_multiset() == walk_seqs(riffs@).to_multiset(),
        walks_ranked(walk_seqs(r@)),
        forall|k: int| 0 <= k < r@.len() ==> riff_of_walk(#[trigger] r@[k], next@),
{
    broadcast use {vstd::seq_lib::group_to_multiset_ensures, vstd::multiset::group_multiset_axioms};

    let mut input = riffs;
    let mut sorted: Vec<Riff> = Vec::new();
    proof {
        assert(walk_seqs(sorted@) =~= Seq::<Seq<Position>>::empty());
    }
    while input.len() > 0
        invariant
            walk_seqs(sorted@).to_multiset().add(walk_seqs(input@).to_multiset())
                == walk_seqs(riffs@).to_multiset(),
            walks_ranked(walk_seqs(sorted@)),
            forall|k: int| 0 <= k < sorted@.len() ==> riff_of_walk(#[trigger] sorted@[k], next@),
            forall|k: int| 0 <= k < input@.len() ==> riff_of_walk(#[trigger] input@[k], next@),
        decreases input@.len(),
    {
        let ghost before_input = input@;
        let x = input.pop().unwrap();
        proof {
            assert(input@ =~= before_input.drop_last());
            assert(walk_seqs(before_input) =~= walk_seqs(input@).push(x.spec_sequence()));
            assert(riff_of_walk(before_input[before_input.len() - 1], next@));
        }
        let mut j: usize = sorted.len();
        while j > 0 && !riff_le(&sorted[j - 1], &x)
            invariant
                j <= sorted@.len(),
                riff_of_walk(x, next@),
                forall|k: int| 0 <= k < sorted@.len() ==> riff_of_walk(#[trigger] sorted@[k], next@),
                forall|k: int|
                    j <= k < sorted@.len() ==> walk_le(
                        x.spec_sequence(),
                        (#[trigger] sorted@[k]).spec_sequence(),
                    ),
            decreases j,
        {
            proof {
                lemma_walk_le_total(sorted@[j - 1].spec_sequence(), x.spec_sequence());
            }
            j = j - 1;
        }
        let ghost old_sorted = sorted@;
        let ghost xs = x.spec_sequence();
        sorted.insert(j, x);
        proof {
            let ws = walk_seqs(sorted@);
            let wo = walk_seqs(old_sorted);
            assert(ws =~= wo.insert(j as int, xs));
            assert forall|a: int, b: int| 0 <= a < b < ws.len() implies walk_le(
                #[trigger] ws[a],
                #[trigger] ws[b],
            ) by {
                if b < j {
                    assert(ws[a] == wo[a] && ws[b] == wo[b]);
                } else if a > j {
                    assert(ws[a] == wo[a - 1] && ws[b] == wo[b - 1]);
                } else if a == j {
                    assert(ws[b] == wo[b - 1]);
                    assert(walk_le(xs, old_sorted[b - 1].spec_sequence()));
                } else if b == j {
                    assert(ws[a] == wo[a]);
                    assert(walk_le(wo[j - 1], xs));
                    if a < j - 1 {
                        assert(walk_le(wo[a], wo[j - 1]));
                        lemma_walk_le_trans(wo[a], wo[j - 1], xs);
                    }
                } else {
                    assert(ws[a] == wo[a] && ws[b] == wo[b - 1]);
                }
            }
            assert forall|k: int| 0 <= k < sorted@.len() implies riff_of_walk(
                #[trigger] sorted@[k],
                next@,
            ) by {
                if k < j {
                    assert(sorted@[k] == old_sorted[k]);
                } else if k > j {
                    assert(sorted@[k] == old_sorted[k - 1]);
                }
            }
            vstd::seq_lib::to_multiset_insert(wo, j as int, xs);
            vstd::seq_lib::to_multiset_build(walk_seqs(input@), xs);
            assert(walk_seqs(sorted@).to_multiset().add(walk_seqs(input@).to_multiset())
                =~= wo.to_multiset().add(walk_seqs(before_input).to_multiset()));
        }
    }
    proof {
        assert(walk_seqs(input@) =~= Seq::<Seq<Position>>::empty());
        assert(walk_seqs(sorted@).to_multiset().add(walk_seqs(input@).to_multiset())
            =~= walk_seqs(sorted@).to_multiset());
    }
    sorted
}

/// The outcome of a search: the riffs of exactly the walks kept by the
/// search (`found_walks`), ranked by physical cost and then by positions,
/// each tagged and costed as `riff_of_walk` says.
pub open spec fn is_search_result(
    current: Chord,
    next: Chord,
    min_notes: nat,
    max_notes: nat,
    max_paths: nat,
    riffs: Seq<Riff>,
) -> bool {
    &&& walk_seqs(riffs).to_multiset() == found_walks(
        current,
        next,
        min_notes,
        max_notes,
        max_paths,
    ).to_multiset()
    &&& walks_ranked(walk_seqs(riffs))
    &&& forall|k: int| 0 <= k < riffs.len() ==> riff_of_walk(#[trigger] riffs[k], next)
}

/// Finds paths with an explicit result cap.
///
/// A path starts on any fretboard position whose pitch class belongs to
/// `current_chord`, moves each step to an unvisited neighbouring position,
/// and ends on a root, third, or fifth pitch class of `next_chord`; its
/// length lies in `min_notes..=max_notes`. The first `max_paths` paths in
/// search order are kept and ranked by physical cost.
pub fn find_paths_with_limit(
    fretboard: Fretboard,
    current_chord: Chord,
    next_chord: Chord,
    min_notes: usize,
    max_notes: usize,
    max_paths: usize,
) -> (r: Result<Vec<Riff>, PathfindingError>)
    ensures
        length_error(min_notes, max_notes) matches Some(e) ==> r == Err::<Vec<Riff>, PathfindingError>(e),
        length_error(min_notes, max_notes) is None ==> (r matches Ok(riffs) && is_search_result(
            current_chord,
            next_chord,
            min_notes as nat,
            max_notes as nat,
            max_paths as nat,
            riffs@,
        )),
{
    broadcast use vstd::seq_lib::group_to_multiset_ensures;

    validate_lengths(min_notes, max_notes)?;
    let ghost all = walks_all(
        start_positions_of(current_chord),
        next_chord,
        min_notes as nat,
        max_notes as nat,
    );
    if max_paths == 0 {
        let empty: Vec<Riff> = Vec::new();
        proof {
            assert(walk_seqs(empty@) =~= Seq::<Seq<Position>>::empty());
        }
        return Ok(empty);
    }
    let starts = start_positions(fretboard, current_chord);
    let targets = target_pitch_classes(next_chord);
    let context = DfsContext {
        fretboard,
        next: next_chord,
        targets,
        min_notes,
        max_notes,
        max_paths,
    };
    let mut riffs: Vec<Riff> = Vec::new();
    let ghost min = min_notes as nat;
    let ghost max = max_notes as nat;
    let ghost cap = max_paths as nat;
    proof {
        assert(walk_seqs(riffs@) =~= Seq::<Seq<Position>>::empty());
        assert(starts@.take(0) =~= Seq::<Position>::empty());
    }
    let mut i: usize = 0;
    while i < starts.len() && riffs.len() < max_paths
        invariant
            context.wf(),
            context.next == next_chord,
            context.min_notes == min_notes,
            context.max_notes == max_notes,
            context.max_paths == max_paths,
            min == min_notes as nat,
            max == max_notes as nat,
            cap == max_paths as nat,
            starts@ == start_positions_of(current_chord),
            i <= starts@.len(),
            walk_seqs(riffs@) == capped(
                seq![],
                walks_all(starts@.take(i as int), next_chord, min, max),
                cap,
            ),
            forall|k: int| 0 <= k < riffs@.len() ==> riff_of_walk(#[trigger] riffs@[k], next_chord),
        decreases starts@.len() - i,
    {
        let start = starts[i];
        proof {
            use_type_invariant(&start);
        }
        let mut path: Vec<Position> = Vec::new();
        path.push(start);
        let ghost before = walk_seqs(riffs@);
        dfs(&context, &mut path, &mut riffs);
        proof {
            assert(path@ =~= seq![start]);
            let t = starts@.take(i + 1);
            assert(t.drop_last() =~= starts@.take(i as int));
            assert(t.last() == start);
            lemma_capped_assoc(
                seq![],
                walks_all(starts@.take(i as int), next_chord, min, max),
                walks_from(seq![start], next_chord, min, max),
                cap,
            );
        }
        i = i + 1;
    }
    proof {
        let rest = lemma_walks_all_split(starts@, i as int, next_chord, min, max);
        let a = walks_all(starts@.take(i as int), next_chord, min, max);
        if i == starts@.len() {
            assert(starts@.take(i as int) =~= starts@);
        } else {
            lemma_capped_prefix_full(seq![], a, rest, cap);
        }
    }
    let sorted = sort_riffs(riffs, Ghost(next_chord));
    Ok(sorted)
}

/// Finds paths with exactly `notes` positions, keeping at most
/// `DEFAULT_MAX_PATHS` of them.
pub fn find_paths(fretboard: Fretboard, current_chord: Chord, next_chord: Chord, notes: usize) -> (r:
    Result<Vec<Riff>, PathfindingError>)
    ensures
        length_error(notes, notes) matches Some(e) ==> r == Err::<Vec<Riff>, PathfindingError>(e),
        length_error(notes, notes) is None ==> (r matches Ok(riffs) && is_search_result(
            current_chord,
            next_chord,
            notes as nat,
            notes as nat,
            DEFAULT_MAX_PATHS as nat,
            riffs@,
        )),
{
    find_paths_with_limit(fretboard, current_chord, next_chord, notes, notes, DEFAULT_MAX_PATHS)
}

/// Finds paths whose note counts fall within `min_notes..=max_notes`,
/// keeping at most `DEFAULT_MAX_PATHS` of them.
pub fn find_paths_in_range(
    fretboard: Fretboard,
    current_chord: Chord,
    next_chord: Chord,
    min_notes: usize,
    max_notes: usize,
) -> (r: Result<Vec<Riff>, PathfindingError>)
    ensures
        length_error(min_notes, max_notes) matches Some(e) ==> r == Err::<Vec<Riff>, PathfindingError>(e),
        length_error(min_notes, max_notes) is None ==> (r matches Ok(riffs) && is_search_result(
            current_chord,
            next_chord,
            min_notes as nat,
            max_notes as nat,
            DEFAULT_MAX_PATHS as nat,
            riffs@,
        )),
{
    find_paths_with_limit(
        fretboard,
        current_chord,
        next_chord,
        min_notes,
        max_notes,
        DEFAULT_MAX_PATHS,
    )
}

} // verus!
