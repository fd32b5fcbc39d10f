//! The fretting hand: which fingers anchor which positions while a chord is
//! held, and how anchors carry over from one chord shape to the next.
use vstd::prelude::*;

use crate::fretboard::{pitch_class_at, Fretboard, Position};
use crate::text::{decimal, push_decimal};
use crate::theory::{Chord, PitchClass};

verus! {

broadcast use {Position::lemma_at, Position::lemma_at_coordinates};

/// A fretting-hand finger that can hold an anchor note.
///
/// Finger numbers follow common guitar notation: `1` is index, `2` is middle,
/// `3` is ring, and `4` is pinky. Open strings are intentionally excluded from
/// anchor tracking because they are not held by the fretting hand.
#[derive(Debug, Clone, Copy, PartialEq, Eq, Hash, PartialOrd, Ord, Structural)]
pub enum Finger {
    Index,
    Middle,
    Ring,
    Pinky,
}

impl Finger {
    pub open spec fn spec_number(self) -> u8 {
        match self {
            Finger::Index => 1,
            Finger::Middle => 2,
            Finger::Ring => 3,
            Finger::Pinky => 4,
        }
    }

    #[verifier::when_used_as_spec(spec_number)]
    pub fn number(self) -> (r: u8)
        ensures
            r == self.spec_number(),
    {
        match self {
            Finger::Index => 1,
            Finger::Middle => 2,
            Finger::Ring => 3,
            Finger::Pinky => 4,
        }
    }
}

/// A single anchored finger in a chord shape.
#[derive(Debug, Clone, Copy, PartialEq, Eq, Hash, PartialOrd, Ord, Structural)]
pub struct AnchorFinger {
    finger: Finger,
    position: Position,
}

impl AnchorFinger {
    pub closed spec fn spec_finger(self) -> Finger {
        self.finger
    }

    pub closed spec fn spec_position(self) -> Position {
        self.position
    }

    /// Two anchors with the same finger and position are the same anchor.
    pub proof fn lemma_ext(a: AnchorFinger, b: AnchorFinger)
        requires
            a.spec_finger() == b.spec_finger(),
            a.spec_position() == b.spec_position(),
        ensures
            a == b,
    {
    }

    pub fn new(finger: Finger, position: Position) -> (r: Self)
        ensures
            r.spec_finger() == finger,
            r.spec_position() == position,
    {
        AnchorFinger { finger, position }
    }

    #[verifier::when_used_as_spec(spec_finger)]
    pub fn finger(self) -> (r: Finger)
        ensures
            r == self.spec_finger(),
    {
        self.finger
    }

    #[verifier::when_used_as_spec(spec_position)]
    pub fn position(self) -> (r: Position)
        ensures
            r == self.spec_position(),
    {
        self.position
    }
}

/// Why a set of anchors cannot describe a fretting hand.
#[derive(Debug, Clone, PartialEq, Eq)]
pub enum HandStateError {
    NoAnchors,
    TooManyAnchors { count: usize },
    DuplicateFinger { finger: Finger },
    DuplicatePosition { position: Position },
    OpenStringAnchor { position: Position },
    AnchorOutsideChord { position: Position, pitch_class: PitchClass, chord: Chord },
}

impl HandStateError {
    /// The message that the error displays.
    pub open spec fn spec_message(self) -> Seq<char> {
        match self {
            HandStateError::NoAnchors => "hand state requires at least one anchor finger"@,
            HandStateError::TooManyAnchors { count } => "hand state has "@ + decimal(count as nat)
                + " anchors but only four fretting fingers are available"@,
            HandStateError::DuplicateFinger { finger } => "finger "@ + decimal(
                finger.spec_number() as nat,
            ) + " is assigned to more than one anchor"@,
            HandStateError::DuplicatePosition { position } => "position string "@ + decimal(
                position.spec_string() as nat,
            ) + " fret "@ + decimal(position.spec_fret() as nat)
                + " is assigned to more than one anchor"@,
            HandStateError::OpenStringAnchor { position } => "open string position string "@
                + decimal(position.spec_string() as nat) + " fret "@ + decimal(
                position.spec_fret() as nat,
            ) + " cannot be a fretting-hand anchor"@,
            HandStateError::AnchorOutsideChord { position, pitch_class, chord } => "anchor at string "@
                + decimal(position.spec_string() as nat) + " fret "@ + decimal(
                position.spec_fret() as nat,
            ) + " sounds "@ + pitch_class.spec_name() + ", which is not in "@
                + chord.spec_root().spec_name() + " "@ + chord.spec_quality().spec_name(),
        }
    }

    pub fn to_string(&self) -> (r: String)
        ensures
            r@ == self.spec_message(),
    {
        match self {
            HandStateError::NoAnchors => "hand state requires at least one anchor finger".to_owned(),
            HandStateError::TooManyAnchors { count } => {
                let mut out = "hand state has ".to_owned();
                push_decimal(&mut out, *count as u64);
                out.append(" anchors but only four fretting fingers are available");
                out
            },
            HandStateError::DuplicateFinger { finger } => {
                let mut out = "finger ".to_owned();
                push_decimal(&mut out, finger.number() as u64);
                out.append(" is assigned to more than one anchor");
                out
            },
            HandStateError::DuplicatePosition { position } => {
                let mut out = "position string ".to_owned();
                push_decimal(&mut out, position.string() as u64);
                out.append(" fret ");
                push_decimal(&mut out, position.fret() as u64);
                out.append(" is assigned to more than one anchor");
                out
            },
            HandStateError::OpenStringAnchor { position } => {
                let mut out = "open string position string ".to_owned();
                push_decimal(&mut out, position.string() as u64);
                out.append(" fret ");
                push_decimal(&mut out, position.fret() as u64);
                out.append(" cannot be a fretting-hand anchor");
                out
            },
            HandStateError::AnchorOutsideChord { position, pitch_class, chord } => {
                let mut out = "anchor at string ".to_owned();
                push_decimal(&mut out, position.string() as u64);
                out.append(" fret ");
                push_decimal(&mut out, position.fret() as u64);
                out.append(" sounds ");
                out.append(pitch_class.name());
                out.append(", which is not in ");
                out.append(chord.root().name());
                out.append(" ");
                out.append(chord.quality().name());
                out
            },
        }
    }
}

/// What is wrong with the anchor at index `i`, given the anchors before it.
pub open spec fn anchor_problem(chord: Chord, anchors: Seq<AnchorFinger>, i: int) -> Option<
    HandStateError,
> {
    let a = anchors[i];
    if exists|j: int| 0 <= j < i && (#[trigger] anchors[j]).spec_finger() == a.spec_finger() {
        Some(HandStateError::DuplicateFinger { finger: a.spec_finger() })
    } else if exists|j: int| 0 <= j < i && (#[trigger] anchors[j]).spec_position() == a.spec_position() {
        Some(HandStateError::DuplicatePosition { position: a.spec_position() })
    } else if a.spec_position().spec_fret() == 0 {
        Some(HandStateError::OpenStringAnchor { position: a.spec_position() })
    } else if !chord.spec_pitch_classes().contains(pitch_class_at(a.spec_position())) {
        Some(
            HandStateError::AnchorOutsideChord {
                position: a.spec_position(),
                pitch_class: pitch_class_at(a.spec_position()),
                chord,
            },
        )
    } else {
        None
    }
}

/// The problem of the first anchor, from index `i` on, that has one.
pub open spec fn first_problem(chord: Chord, anchors: Seq<AnchorFinger>, i: int) -> Option<
    HandStateError,
>
    decreases anchors.len() - i,
{
    if i < 0 || i >= anchors.len() {
        None
    } else {
        match anchor_problem(chord, anchors, i) {
            Some(e) => Some(e),
            None => first_problem(chord, anchors, i + 1),
        }
    }
}

/// Why the anchors cannot describe a hand holding `chord`, if they cannot:
/// no anchors, more than four, or else the first anchor that repeats an
/// earlier finger or position, sits on an open string, or sounds a pitch
/// class outside the chord.
pub open spec fn anchors_error(chord: Chord, anchors: Seq<AnchorFinger>) -> Option<HandStateError> {
    if anchors.len() == 0 {
        Some(HandStateError::NoAnchors)
    } else if anchors.len() > 4 {
        Some(HandStateError::TooManyAnchors { count: anchors.len() as usize })
    } else {
        first_problem(chord, anchors, 0)
    }
}

/// Anchors ordered by strictly increasing finger number.
pub open spec fn by_finger(anchors: Seq<AnchorFinger>) -> bool {
    forall|i: int, j: int|
        0 <= i < j < anchors.len() ==> (#[trigger] anchors[i]).spec_finger().spec_number() < (
        #[trigger] anchors[j]).spec_finger().spec_number()
}

proof fn lemma_first_problem_none(chord: Chord, anchors: Seq<AnchorFinger>, i: int)
    requires
        0 <= i <= anchors.len(),
        first_problem(chord, anchors, i) is None,
    ensures
        forall|k: int| i <= k < anchors.len() ==> anchor_problem(chord, anchors, k) is None,
    decreases anchors.len() - i,
{
    if i < anchors.len() {
        lemma_first_problem_none(chord, anchors, i + 1);
    }
}

/// Valid anchors have distinct fingers, distinct positions, no open string,
/// and only pitch classes of the chord.
pub proof fn lemma_valid_anchors(chord: Chord, anchors: Seq<AnchorFinger>)
    requires
        anchors_error(chord, anchors) is None,
    ensures
        1 <= anchors.len() <= 4,
        forall|i: int, j: int|
            0 <= i < j < anchors.len() ==> (#[trigger] anchors[i]).spec_finger() != (
            #[trigger] anchors[j]).spec_finger() && anchors[i].spec_position()
                != anchors[j].spec_position(),
        forall|i: int|
            0 <= i < anchors.len() ==> (#[trigger] anchors[i]).spec_position().spec_fret() != 0
                && chord.spec_pitch_classes().contains(pitch_class_at(anchors[i].spec_position())),
{
    lemma_first_problem_none(chord, anchors, 0);
    assert forall|i: int, j: int| 0 <= i < j < anchors.len() implies (
    #[trigger] anchors[i]).spec_finger() != (#[trigger] anchors[j]).spec_finger()
        && anchors[i].spec_position() != anchors[j].spec_position() by {
        assert(anchor_problem(chord, anchors, j) is None);
    }
    assert forall|i: int| 0 <= i < anchors.len() implies (
    #[trigger] anchors[i]).spec_position().spec_fret() != 0
        && chord.spec_pitch_classes().contains(pitch_class_at(anchors[i].spec_position())) by {
        assert(anchor_problem(chord, anchors, i) is None);
    }
}

fn validate_anchors(fretboard: Fretboard, chord: Chord, anchors: &Vec<AnchorFinger>) -> (r: Result<
    (),
    HandStateError,
>)
    ensures
        anchors_error(chord, anchors@) is None ==> r is Ok,
        anchors_error(chord, anchors@) matches Some(e) ==> r == Err::<(), HandStateError>(e),
{
    if anchors.len() == 0 {
        return Err(HandStateError::NoAnchors);
    }
    if anchors.len() > 4 {
        return Err(HandStateError::TooManyAnchors { count: anchors.len() });
    }
    let chord_pitch_classes = chord.pitch_classes();
    let mut i: usize = 0;
    while i < anchors.len()
        invariant
            1 <= anchors@.len() <= 4,
            i <= anchors@.len(),
            chord_pitch_classes@ == chord.spec_pitch_classes(),
            anchors_error(chord, anchors@) == first_problem(chord, anchors@, i as int),
        decreases anchors@.len() - i,
    {
        let anchor = anchors[i];
        let mut j: usize = 0;
        while j < i
            invariant
                1 <= anchors@.len() <= 4,
                i < anchors@.len(),
                j <= i,
                anchor == anchors@[i as int],
                anchors_error(chord, anchors@) == first_problem(chord, anchors@, i as int),
                forall|k: int| 0 <= k < j ==> (#[trigger] anchors@[k]).spec_finger() != anchor.spec_finger(),
            decreases i - j,
        {
            if anchors[j].finger() == anchor.finger() {
                proof {
                    assert(anchor_problem(chord, anchors@, i as int) == Some(
                        HandStateError::DuplicateFinger { finger: anchor.spec_finger() },
                    ));
                }
                return Err(HandStateError::DuplicateFinger { finger: anchor.finger() });
            }
            j = j + 1;
        }
        let mut j: usize = 0;
        while j < i
            invariant
                1 <= anchors@.len() <= 4,
                i < anchors@.len(),
                j <= i,
                anchor == anchors@[i as int],
                anchors_error(chord, anchors@) == first_problem(chord, anchors@, i as int),
                forall|k: int| 0 <= k < i ==> (#[trigger] anchors@[k]).spec_finger() != anchor.spec_finger(),
                forall|k: int| 0 <= k < j ==> (#[trigger] anchors@[k]).spec_position() != anchor.spec_position(),
            decreases i - j,
        {
            if anchors[j].position() == anchor.position() {
                proof {
                    assert(anchors@[j as int].spec_position() == anchor.spec_position());
                    assert(anchor_problem(chord, anchors@, i as int) == Some(
                        HandStateError::DuplicatePosition { position: anchor.spec_position() },
                    ));
                }
                return Err(HandStateError::DuplicatePosition { position: anchor.position() });
            }
            j = j + 1;
        }
        if anchor.position().fret() == 0 {
            return Err(HandStateError::OpenStringAnchor { position: anchor.position() });
        }
        let pitch_class = fretboard.note_at(anchor.position()).pitch_class();
        let mut found = false;
        let mut k: usize = 0;
        while k < chord_pitch_classes.len()
            invariant
                k <= chord_pitch_classes@.len(),
                found == exists|m: int| 0 <= m < k && chord_pitch_classes@[m] == pitch_class,
            decreases chord_pitch_classes@.len() - k,
        {
            if chord_pitch_classes[k] == pitch_class {
                found = true;
            }
            k = k + 1;
        }
        proof {
            if found {
                let m = choose|m: int| 0 <= m < k && chord_pitch_classes@[m] == pitch_class;
                assert(chord_pitch_classes@.contains(pitch_class)) by {
                    assert(chord_pitch_classes@[m] == pitch_class);
                }
            }
        }
        if !found {
            return Err(
                HandStateError::AnchorOutsideChord {
                    position: anchor.position(),
                    pitch_class,
                    chord,
                },
            );
        }
        i = i + 1;
    }
    Ok(())
}

/// Sorts anchors with distinct fingers by finger number.
fn sort_by_finger(anchors: Vec<AnchorFinger>) -> (r: Vec<AnchorFinger>)
    requires
        forall|i: int, j: int|
            0 <= i < j < anchors@.len() ==> (#[trigger] anchors@[i]).spec_finger() != (
            #[trigger] anchors@[j]).spec_finger(),
    ensures
        r@.to_multiset() == anchors@.to_multiset(),
        by_finger(r@),
{
    broadcast use {vstd::seq_lib::group_to_multiset_ensures, vstd::multiset::group_multiset_axioms};

    let mut input = anchors;
    let mut sorted: Vec<AnchorFinger> = Vec::new();
    while input.len() > 0
        invariant
            sorted@.to_multiset().add(input@.to_multiset()) == anchors@.to_multiset(),
            by_finger(sorted@),
            forall|i: int, j: int|
                0 <= i < j < input@.len() ==> (#[trigger] input@[i]).spec_finger() != (
                #[trigger] input@[j]).spec_finger(),
            forall|i: int, j: int|
                0 <= i < sorted@.len() && 0 <= j < input@.len() ==> (
                #[trigger] sorted@[i]).spec_finger() != (#[trigger] input@[j]).spec_finger(),
        decreases input@.len(),
    {
        let ghost before = input@;
        let x = input.pop().unwrap();
        proof {
            assert(input@ =~= before.drop_last());
            assert(before =~= input@.push(x));
            vstd::seq_lib::to_multiset_build(input@, x);
            assert forall|i: int| 0 <= i < sorted@.len() implies (
            #[trigger] sorted@[i]).spec_finger() != x.spec_finger() by {
                assert(x == before[before.len() - 1]);
            }
        }
        let n = x.finger().number();
        let mut j: usize = sorted.len();
        while j > 0 && sorted[j - 1].finger().number() > n
            invariant
                j <= sorted@.len(),
                forall|k: int| j <= k < sorted@.len() ==> (#[trigger] sorted@[k]).spec_finger().spec_number() > n,
                n == x.spec_finger().spec_number(),
            decreases j,
        {
            j = j - 1;
        }
        let ghost old_sorted = sorted@;
        proof {
            if j > 0 {
                assert(old_sorted[j - 1].spec_finger() != x.spec_finger());
                assert(old_sorted[j - 1].spec_finger().spec_number() < n);
            }
        }
        sorted.insert(j, x);
        proof {
            let s = sorted@;
            assert(s =~= old_sorted.insert(j as int, x));
            vstd::seq_lib::to_multiset_insert(old_sorted, j as int, x);
            assert forall|a: int, b: int| 0 <= a < b < s.len() implies (
            #[trigger] s[a]).spec_finger().spec_number() < (#[trigger] s[b]).spec_finger().spec_number() by {
                if b < j {
                    assert(s[a] == old_sorted[a] && s[b] == old_sorted[b]);
                } else if a > j {
                    assert(s[a] == old_sorted[a - 1] && s[b] == old_sorted[b - 1]);
                } else if a == j {
                    assert(s[b] == old_sorted[b - 1]);
                } else if b == j {
                    assert(s[a] == old_sorted[a]);
                    if a < j - 1 {
                        assert(old_sorted[a].spec_finger().spec_number()
                            < old_sorted[j - 1].spec_finger().spec_number());
                    }
                } else {
                    assert(s[a] == old_sorted[a] && s[b] == old_sorted[b - 1]);
                }
            }
            assert forall|a: int, b: int| 0 <= a < s.len() && 0 <= b < input@.len() implies (
            #[trigger] s[a]).spec_finger() != (#[trigger] input@[b]).spec_finger() by {
                assert(input@[b] == before[b]);
                if a < j {
                    assert(s[a] == old_sorted[a]);
                } else if a > j {
                    assert(s[a] == old_sorted[a - 1]);
                } else {
                    assert(x == before[before.len() - 1]);
                }
            }
        }
    }
    proof {
        assert(input@ =~= Seq::<AnchorFinger>::empty());
        assert(sorted@.to_multiset().add(input@.to_multiset()) =~= sorted@.to_multiset());
    }
    sorted
}

/// Snapshot of the fretting hand while a chord is held.
///
/// The state stores only anchored fingers, not every sounding note in the
/// chord, sorted by finger number.
#[derive(Debug, PartialEq, Eq)]
pub struct HandState {
    chord: Chord,
    anchors: Vec<AnchorFinger>,
}

impl View for HandState {
    type V = (Chord, Seq<AnchorFinger>);

    closed spec fn view(&self) -> (Chord, Seq<AnchorFinger>) {
        (self.chord, self.anchors@)
    }
}

/// The hand state that a chord and its anchors make: the chord, and the
/// anchors ordered by finger.
pub open spec fn hand_of(chord: Chord, anchors: Seq<AnchorFinger>, v: (Chord, Seq<AnchorFinger>)) -> bool {
    &&& v.0 == chord
    &&& v.1.to_multiset() == anchors.to_multiset()
    &&& by_finger(v.1)
}

/// Anchors are put in finger order in one way only: two finger-ordered
/// arrangements of the same anchors are the same sequence.
pub proof fn lemma_by_finger_unique(a: Seq<AnchorFinger>, b: Seq<AnchorFinger>)
    requires
        a.to_multiset() == b.to_multiset(),
        by_finger(a),
        by_finger(b),
    ensures
        a == b,
    decreases a.len(),
{
    broadcast use vstd::seq_lib::group_to_multiset_ensures;

    vstd::seq_lib::to_multiset_len(a);
    vstd::seq_lib::to_multiset_len(b);
    assert(a.len() == b.len());
    if a.len() == 0 {
        assert(a =~= b);
    } else {
        assert(a.to_multiset().count(a[0]) > 0);
        assert(b.contains(a[0]));
        let j = choose|j: int| 0 <= j < b.len() && b[j] == a[0];
        assert(b.to_multiset().count(b[0]) > 0);
        assert(a.contains(b[0]));
        let i = choose|i: int| 0 <= i < a.len() && a[i] == b[0];
        if i > 0 {
            assert(a[0].spec_finger().spec_number() < a[i].spec_finger().spec_number());
            if j > 0 {
                assert(b[0].spec_finger().spec_number() < b[j].spec_finger().spec_number());
            }
            assert(false);
        }
        assert(a[0] == b[0]);
        assert(a.remove(0) =~= a.drop_first());
        assert(b.remove(0) =~= b.drop_first());
        assert(a.drop_first().to_multiset() == b.drop_first().to_multiset());
        assert(by_finger(a.drop_first())) by {
            assert forall|x: int, y: int| 0 <= x < y < a.drop_first().len() implies (#[trigger] a.drop_first()[x]).spec_finger().spec_number() < (
            #[trigger] a.drop_first()[y]).spec_finger().spec_number() by {
                assert(a.drop_first()[x] == a[x + 1] && a.drop_first()[y] == a[y + 1]);
            }
        }
        assert(by_finger(b.drop_first())) by {
            assert forall|x: int, y: int| 0 <= x < y < b.drop_first().len() implies (#[trigger] b.drop_first()[x]).spec_finger().spec_number() < (
            #[trigger] b.drop_first()[y]).spec_finger().spec_number() by {
                assert(b.drop_first()[x] == b[x + 1] && b.drop_first()[y] == b[y + 1]);
            }
        }
        lemma_by_finger_unique(a.drop_first(), b.drop_first());
        assert(a =~= b) by {
            assert forall|k: int| 0 <= k < a.len() implies a[k] == b[k] by {
                if k > 0 {
                    assert(a[k] == a.drop_first()[k - 1]);
                    assert(b[k] == b.drop_first()[k - 1]);
                }
            }
        }
    }
}

/// A hand holding a chord with these anchors: the anchors are valid for the
/// chord and sorted by finger number.
pub open spec fn valid_hand(v: (Chord, Seq<AnchorFinger>)) -> bool {
    &&& anchors_error(v.0, v.1) is None
    &&& by_finger(v.1)
}

impl HandState {
    #[verifier::type_invariant]
    pub open spec fn wf(&self) -> bool {
        valid_hand(self@)
    }

    /// Validates the anchors for the chord and keeps them sorted by finger.
    pub fn new(fretboard: Fretboard, chord: Chord, anchors: Vec<AnchorFinger>) -> (r: Result<
        Self,
        HandStateError,
    >)
        ensures
            anchors_error(chord, anchors@) matches Some(e) ==> r == Err::<HandState, HandStateError>(e),
            anchors_error(chord, anchors@) is None ==> (r matches Ok(s) && hand_of(chord, anchors@, s@)),
    {
        validate_anchors(fretboard, chord, &anchors)?;
        proof {
            lemma_valid_anchors(chord, anchors@);
        }
        let ghost given = anchors@;
        let sorted = sort_by_finger(anchors);
        proof {
            lemma_same_anchors_valid(chord, given, sorted@);
        }
        Ok(HandState { chord, anchors: sorted })
    }

    pub fn chord(&self) -> (r: Chord)
        ensures
            r == self@.0,
    {
        self.chord
    }

    pub fn anchors(&self) -> (r: &[AnchorFinger])
        ensures
            r@ == self@.1,
            valid_hand(self@),
    {
        proof {
            use_type_invariant(self);
        }
        self.anchors.as_slice()
    }

    /// The anchor held by `finger`, if that finger is anchored.
    pub fn anchor_for_finger(&self, finger: Finger) -> (r: Option<AnchorFinger>)
        ensures
            r matches Some(a) ==> self@.1.contains(a) && a.spec_finger() == finger,
            r is None ==> forall|i: int| 0 <= i < self@.1.len() ==> (#[trigger] self@.1[i]).spec_finger() != finger,
    {
        let mut i: usize = 0;
        while i < self.anchors.len()
            invariant
                i <= self.anchors@.len(),
                self@.1 == self.anchors@,
                forall|k: int| 0 <= k < i ==> (#[trigger] self.anchors@[k]).spec_finger() != finger,
            decreases self.anchors@.len() - i,
        {
            let a = self.anchors[i];
            if a.finger() == finger {
                assert(self.anchors@[i as int] == a);
                return Some(a);
            }
            i = i + 1;
        }
        None
    }

    /// The anchor placed on `position`, if any.
    pub fn anchored_position(&self, position: Position) -> (r: Option<AnchorFinger>)
        ensures
            r matches Some(a) ==> self@.1.contains(a) && a.spec_position() == position,
            r is None ==> forall|i: int| 0 <= i < self@.1.len() ==> (#[trigger] self@.1[i]).spec_position() != position,
    {
        let mut i: usize = 0;
        while i < self.anchors.len()
            invariant
                i <= self.anchors@.len(),
                self@.1 == self.anchors@,
                forall|k: int| 0 <= k < i ==> (#[trigger] self.anchors@[k]).spec_position() != position,
            decreases self.anchors@.len() - i,
        {
            let a = self.anchors[i];
            if a.position() == position {
                assert(self.anchors@[i as int] == a);
                return Some(a);
            }
            i = i + 1;
        }
        None
    }

    /// The pitch class sounded by each anchor, in anchor order.
    pub fn anchored_pitch_classes(&self, fretboard: Fretboard) -> (r: Vec<PitchClass>)
        ensures
            r@ == self@.1.map_values(|a: AnchorFinger| pitch_class_at(a.spec_position())),
    {
        let mut out: Vec<PitchClass> = Vec::new();
        let mut i: usize = 0;
        while i < self.anchors.len()
            invariant
                i <= self.anchors@.len(),
                self@.1 == self.anchors@,
                out@ == self.anchors@.take(i as int).map_values(
                    |a: AnchorFinger| pitch_class_at(a.spec_position()),
                ),
            decreases self.anchors@.len() - i,
        {
            out.push(fretboard.note_at(self.anchors[i].position()).pitch_class());
            i = i + 1;
            assert(out@ =~= self.anchors@.take(i as int).map_values(
                |a: AnchorFinger| pitch_class_at(a.spec_position()),
            ));
        }
        assert(self.anchors@.take(i as int) =~= self.anchors@);
        out
    }

    /// A copy of the hand state.
    pub fn copy(&self) -> (r: HandState)
        ensures
            r@ == self@,
    {
        proof {
            use_type_invariant(self);
        }
        let anchors = self.anchors.clone();
        assert(anchors@ =~= self.anchors@);
        HandState { chord: self.chord, anchors }
    }
}

impl Clone for HandState {
    fn clone(&self) -> (r: Self)
        ensures
            r@ == self@,
    {
        self.copy()
    }
}

/// Validity does not depend on the order of the anchors.
proof fn lemma_same_anchors_valid(chord: Chord, given: Seq<AnchorFinger>, sorted: Seq<AnchorFinger>)
    requires
        anchors_error(chord, given) is None,
        sorted.to_multiset() == given.to_multiset(),
        by_finger(sorted),
    ensures
        anchors_error(chord, sorted) is None,
{
    broadcast use vstd::seq_lib::group_to_multiset_ensures;

    lemma_valid_anchors(chord, given);
    vstd::seq_lib::to_multiset_len(sorted);
    vstd::seq_lib::to_multiset_len(given);
    assert(sorted.len() == given.len());
    assert forall|k: int| 0 <= k < sorted.len() implies anchor_problem(chord, sorted, k) is None by {
        assert(sorted.to_multiset().count(sorted[k]) > 0);
        assert(given.contains(sorted[k]));
        let g = choose|g: int| 0 <= g < given.len() && given[g] == sorted[k];
        assert forall|j: int| 0 <= j < k implies (#[trigger] sorted[j]).spec_finger() != sorted[k].spec_finger() by {
        }
        assert forall|j: int| 0 <= j < k implies (#[trigger] sorted[j]).spec_position() != sorted[k].spec_position() by {
            assert(sorted.to_multiset().count(sorted[j]) > 0);
            assert(given.contains(sorted[j]));
            let h = choose|h: int| 0 <= h < given.len() && given[h] == sorted[j];
            if h != g {
                if h < g {
                    assert(given[h].spec_position() != given[g].spec_position());
                } else {
                    assert(given[g].spec_position() != given[h].spec_position());
                }
            }
        }
    }
    lemma_no_problem_first(chord, sorted, 0);
}

proof fn lemma_no_problem_first(chord: Chord, anchors: Seq<AnchorFinger>, i: int)
    requires
        0 <= i <= anchors.len(),
        forall|k: int| i <= k < anchors.len() ==> anchor_problem(chord, anchors, k) is None,
    ensures
        first_problem(chord, anchors, i) is None,
    decreases anchors.len() - i,
{
    if i < anchors.len() {
        lemma_no_problem_first(chord, anchors, i + 1);
    }
}


/// The anchors of `previous` that `current` holds too (same finger on the
/// same position), in the order of `previous`.
pub open spec fn retained_of(previous: Seq<AnchorFinger>, current: Seq<AnchorFinger>) -> Seq<
    AnchorFinger,
> {
    previous.filter(|a: AnchorFinger| current.contains(a))
}

fn retained_anchors(previous: &HandState, current: &HandState) -> (r: Vec<AnchorFinger>)
    ensures
        r@ == retained_of(previous@.1, current@.1),
{
    let prev = previous.anchors();
    let cur = current.anchors();
    let ghost pred = |a: AnchorFinger| current@.1.contains(a);
    let mut out: Vec<AnchorFinger> = Vec::new();
    let mut i: usize = 0;
    while i < prev.len()
        invariant
            prev@ == previous@.1,
            cur@ == current@.1,
            pred == (|a: AnchorFinger| current@.1.contains(a)),
            i <= prev@.len(),
            out@ == prev@.take(i as int).filter(pred),
        decreases prev@.len() - i,
    {
        let a = prev[i];
        let mut found = false;
        let mut k: usize = 0;
        while k < cur.len()
            invariant
                k <= cur@.len(),
                found == exists|m: int| 0 <= m < k && cur@[m] == a,
            decreases cur@.len() - k,
        {
            let c = cur[k];
            if c.finger() == a.finger() && c.position() == a.position() {
                proof {
                    AnchorFinger::lemma_ext(c, a);
                }
                found = true;
            } else {
                assert(cur@[k as int] != a);
            }
            k = k + 1;
        }
        proof {
            reveal_with_fuel(Seq::<_>::filter, 1);
            assert(prev@.take(i + 1).drop_last() =~= prev@.take(i as int));
            assert(prev@.take(i + 1).last() == a);
            if found {
                let m = choose|m: int| 0 <= m < k && cur@[m] == a;
                assert(cur@.contains(a));
            }
        }
        if found {
            out.push(a);
        }
        i = i + 1;
    }
    assert(prev@.take(i as int) =~= prev@);
    out
}

/// The view of an optional hand state.
pub open spec fn hand_view(s: Option<HandState>) -> Option<(Chord, Seq<AnchorFinger>)> {
    match s {
        Some(h) => Some(h@),
        None => None,
    }
}

/// Small state machine for the current chord's fretting-hand anchors.
#[derive(Debug, Clone, PartialEq, Eq)]
pub struct HandStateMachine {
    current: Option<HandState>,
}

impl Default for HandStateMachine {
    /// A machine that holds no chord shape.
    fn default() -> (r: Self)
        ensures
            r.spec_current() is None,
    {
        HandStateMachine::new()
    }
}

impl HandStateMachine {
    /// The hand state currently held, if any.
    pub closed spec fn spec_current(&self) -> Option<(Chord, Seq<AnchorFinger>)> {
        hand_view(self.current)
    }

    pub fn new() -> (r: Self)
        ensures
            r.spec_current() is None,
    {
        HandStateMachine { current: None }
    }

    pub fn current(&self) -> (r: Option<&HandState>)
        ensures
            r matches Some(s) ==> self.spec_current() == Some(s@),
            r is None <==> self.spec_current() is None,
    {
        self.current.as_ref()
    }

    /// Holds a new chord shape; on an invalid shape the state is unchanged.
    pub fn anchor_chord(&mut self, fretboard: Fretboard, chord: Chord, anchors: Vec<AnchorFinger>) -> (r:
        Result<&HandState, HandStateError>)
        ensures
            anchors_error(chord, anchors@) matches Some(e) ==> (r == Err::<&HandState, HandStateError>(e)
                && final(self).spec_current() == old(self).spec_current()),
            anchors_error(chord, anchors@) is None ==> (r matches Ok(s) && hand_of(chord, anchors@, s@)
                && final(self).spec_current() == Some(s@)),
    {
        let state = HandState::new(fretboard, chord, anchors)?;
        self.current = Some(state);
        Ok(self.current.as_ref().unwrap())
    }

    /// Lets go of the current chord shape and hands it back.
    pub fn release(&mut self) -> (r: Option<HandState>)
        ensures
            hand_view(r) == old(self).spec_current(),
            final(self).spec_current() is None,
    {
        self.current.take()
    }

    /// Moves the hand to a new chord shape and reports which anchors stayed
    /// in place; on an invalid shape the state is unchanged.
    pub fn transition_to(&mut self, fretboard: Fretboard, chord: Chord, anchors: Vec<AnchorFinger>) -> (r:
        Result<HandTransition, HandStateError>)
        ensures
            anchors_error(chord, anchors@) matches Some(e) ==> (r == Err::<HandTransition, HandStateError>(e)
                && final(self).spec_current() == old(self).spec_current()),
            anchors_error(chord, anchors@) is None ==> (r matches Ok(t) && t.spec_previous()
                == old(self).spec_current() && hand_of(chord, anchors@, t.spec_current()) && final(self).spec_current() == Some(t.spec_current()) && t.spec_retained() == (
            match old(self).spec_current() {
                Some(p) => retained_of(p.1, t.spec_current().1),
                None => Seq::<AnchorFinger>::empty(),
            })),
    {
        let next = HandState::new(fretboard, chord, anchors)?;
        let previous = self.current.take();
        let retained = match &previous {
            Some(p) => retained_anchors(p, &next),
            None => Vec::new(),
        };
        self.current = Some(next.copy());
        Ok(HandTransition { previous, current: next, retained_anchors: retained })
    }
}

/// Result of moving the hand state from one chord shape to another.
#[derive(Debug, Clone, PartialEq, Eq)]
pub struct HandTransition {
    previous: Option<HandState>,
    current: HandState,
    retained_anchors: Vec<AnchorFinger>,
}

impl HandTransition {
    pub closed spec fn spec_previous(&self) -> Option<(Chord, Seq<AnchorFinger>)> {
        hand_view(self.previous)
    }

    pub closed spec fn spec_current(&self) -> (Chord, Seq<AnchorFinger>) {
        self.current@
    }

    pub closed spec fn spec_retained(&self) -> Seq<AnchorFinger> {
        self.retained_anchors@
    }

    pub fn previous(&self) -> (r: Option<&HandState>)
        ensures
            r matches Some(s) ==> self.spec_previous() == Some(s@),
            r is None <==> self.spec_previous() is None,
    {
        self.previous.as_ref()
    }

    pub fn current(&self) -> (r: &HandState)
        ensures
            r@ == self.spec_current(),
    {
        &self.current
    }

    pub fn retained_anchors(&self) -> (r: &[AnchorFinger])
        ensures
            r@ == self.spec_retained(),
    {
        self.retained_anchors.as_slice()
    }
}

} // verus!
