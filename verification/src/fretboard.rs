//! The standard-tuned six-string, 24-fret fretboard as a grid of positions.
use vstd::prelude::*;

use crate::text::{decimal, push_decimal};
use crate::theory::{Interval, Note, NoteError, PitchClass};

verus! {

/// Number of strings on the guitar fretboard.
pub const STRING_COUNT: u8 = 6;

/// Open-string coordinates use conventional guitar string numbers: 1 is the
/// highest-pitched string and 6 is the lowest-pitched string.
pub const MIN_STRING: u8 = 1;

pub const MAX_STRING: u8 = STRING_COUNT;

/// The fretboard includes the open string and frets 1 through 24.
pub const MIN_FRET: u8 = 0;

pub const MAX_FRET: u8 = 24;

/// Why a coordinate is not on the fretboard.
#[derive(Debug, Clone, Copy, PartialEq, Eq, Structural)]
pub enum FretboardError {
    StringOutOfRange { string: u8 },
    FretOutOfRange { fret: u8 },
}

impl FretboardError {
    /// The message that the error displays.
    pub open spec fn spec_message(self) -> Seq<char> {
        match self {
            FretboardError::StringOutOfRange { string } => "string "@ + decimal(string as nat)
                + " is outside the supported range 1..=6"@,
            FretboardError::FretOutOfRange { fret } => "fret "@ + decimal(fret as nat)
                + " is outside the supported range 0..=24"@,
        }
    }

    pub fn to_string(&self) -> (r: String)
        ensures
            r@ == self.spec_message(),
    {
        match self {
            FretboardError::StringOutOfRange { string } => {
                let mut out = "string ".to_owned();
                push_decimal(&mut out, *string as u64);
                out.append(" is outside the supported range 1..=6");
                out
            },
            FretboardError::FretOutOfRange { fret } => {
                let mut out = "fret ".to_owned();
                push_decimal(&mut out, *fret as u64);
                out.append(" is outside the supported range 0..=24");
                out
            },
        }
    }
}

/// A Cartesian coordinate on the fretboard grid.
///
/// `string` uses conventional guitar numbering (`1` = high E, `6` = low E).
/// `fret` is zero for an open string and otherwise the physical fret number.
#[derive(Debug, Clone, Copy, PartialEq, Eq, Hash, PartialOrd, Ord, Structural)]
pub struct Position {
    string: u8,
    fret: u8,
}

/// The coordinates that lie on the fretboard.
pub open spec fn on_board(string: int, fret: int) -> bool {
    1 <= string <= 6 && 0 <= fret <= 24
}

impl Position {
    pub closed spec fn spec_string(self) -> u8 {
        self.string
    }

    pub closed spec fn spec_fret(self) -> u8 {
        self.fret
    }

    /// The position is on the fretboard.
    #[verifier::type_invariant]
    pub open spec fn wf(self) -> bool {
        on_board(self.spec_string() as int, self.spec_fret() as int)
    }

    /// The position with the given coordinates.
    pub closed spec fn at(string: u8, fret: u8) -> Position {
        Position { string, fret }
    }

    pub broadcast proof fn lemma_at(string: u8, fret: u8)
        ensures
            #[trigger] Position::at(string, fret).spec_string() == string,
            Position::at(string, fret).spec_fret() == fret,
    {
    }

    /// A position is the position at its own coordinates.
    pub broadcast proof fn lemma_at_coordinates(p: Position)
        ensures
            #[trigger] Position::at(p.spec_string(), p.spec_fret()) == p,
    {
    }

    /// Two positions with the same coordinates are the same position.
    pub proof fn lemma_ext(a: Position, b: Position)
        requires
            a.spec_string() == b.spec_string(),
            a.spec_fret() == b.spec_fret(),
        ensures
            a == b,
    {
    }

    pub fn new(string: u8, fret: u8) -> (r: Result<Self, FretboardError>)
        ensures
            on_board(string as int, fret as int) ==> r == Ok::<Position, FretboardError>(
                Position::at(string, fret),
            ),
            (string == 0 || string > 6) ==> r == Err::<Position, FretboardError>(
                FretboardError::StringOutOfRange { string },
            ),
            (1 <= string <= 6 && fret > 24) ==> r == Err::<Position, FretboardError>(
                FretboardError::FretOutOfRange { fret },
            ),
    {
        if string == 0 || string > MAX_STRING {
            return Err(FretboardError::StringOutOfRange { string });
        }
        if fret > MAX_FRET {
            return Err(FretboardError::FretOutOfRange { fret });
        }
        Ok(Position { string, fret })
    }

    #[verifier::when_used_as_spec(spec_string)]
    pub fn string(self) -> (r: u8)
        ensures
            r == self.spec_string(),
            1 <= r <= 6,
    {
        proof {
            use_type_invariant(&self);
        }
        self.string
    }

    #[verifier::when_used_as_spec(spec_fret)]
    pub fn fret(self) -> (r: u8)
        ensures
            r == self.spec_fret(),
            r <= 24,
    {
        proof {
            use_type_invariant(&self);
        }
        self.fret
    }
}

/// MIDI number of each open string in standard tuning: string 6 = E2,
/// string 5 = A2, string 4 = D3, string 3 = G3, string 2 = B3, string 1 = E4.
pub open spec fn open_midi(string: int) -> int {
    if string == 1 {
        64
    } else if string == 2 {
        59
    } else if string == 3 {
        55
    } else if string == 4 {
        50
    } else if string == 5 {
        45
    } else {
        40
    }
}

/// MIDI number sounded at a position: the open string raised by the fret.
pub open spec fn midi_at(p: Position) -> int {
    open_midi(p.spec_string() as int) + p.spec_fret()
}

/// Pitch class sounded at a position.
pub open spec fn pitch_class_at(p: Position) -> PitchClass {
    PitchClass::spec_from_semitones(midi_at(p))
}

/// How many open strings sound the pitch class.
pub open spec fn open_strings_sounding(pc: PitchClass) -> nat {
    (if PitchClass::spec_from_semitones(open_midi(1)) == pc { 1nat } else { 0nat })
        + (if PitchClass::spec_from_semitones(open_midi(2)) == pc { 1nat } else { 0nat })
        + (if PitchClass::spec_from_semitones(open_midi(3)) == pc { 1nat } else { 0nat })
        + (if PitchClass::spec_from_semitones(open_midi(4)) == pc { 1nat } else { 0nat })
        + (if PitchClass::spec_from_semitones(open_midi(5)) == pc { 1nat } else { 0nat })
        + (if PitchClass::spec_from_semitones(open_midi(6)) == pc { 1nat } else { 0nat })
}

/// Every position of the grid, string by string from string 1, and within
/// a string fret by fret from the open string.
pub open spec fn grid() -> Seq<Position> {
    Seq::new(150, |i: int| Position::at((1 + i / 25) as u8, (i % 25) as u8))
}

/// A 6-string, 24-fret guitar fretboard in standard tuning only.
///
/// Open strings are EADGBE from low to high pitch, represented with
/// conventional string numbers: string 6 = E2, string 5 = A2, string 4 = D3,
/// string 3 = G3, string 2 = B3, and string 1 = E4.
#[derive(Debug, Clone, Copy, Default, PartialEq, Eq, Structural)]
pub struct Fretboard;

fn validate_string(string: u8) -> (r: Result<(), FretboardError>)
    ensures
        1 <= string <= 6 ==> r is Ok,
        !(1 <= string <= 6) ==> r == Err::<(), FretboardError>(
            FretboardError::StringOutOfRange { string },
        ),
{
    if string < MIN_STRING || string > MAX_STRING {
        return Err(FretboardError::StringOutOfRange { string });
    }
    Ok(())
}

fn standard_open_note(string: u8) -> (r: Note)
    requires
        1 <= string <= 6,
    ensures
        r == Note::spec_from_midi(open_midi(string as int)),
{
    let made: Result<Note, NoteError> = if string == 1 {
        Note::new(PitchClass::E, 4)
    } else if string == 2 {
        Note::new(PitchClass::B, 3)
    } else if string == 3 {
        Note::new(PitchClass::G, 3)
    } else if string == 4 {
        Note::new(PitchClass::D, 3)
    } else if string == 5 {
        Note::new(PitchClass::A, 2)
    } else {
        Note::new(PitchClass::E, 2)
    };
    let note = made.unwrap();
    proof {
        Note::lemma_from_midi(open_midi(string as int));
        Note::lemma_midi_injective(note, Note::spec_from_midi(open_midi(string as int)));
    }
    note
}

impl Fretboard {
    pub fn standard() -> (r: Self)
        ensures
            r == Fretboard,
    {
        Fretboard
    }

    /// The note of an open string.
    pub fn open_note(self, string: u8) -> (r: Result<Note, FretboardError>)
        ensures
            1 <= string <= 6 ==> r == Ok::<Note, FretboardError>(
                Note::spec_from_midi(open_midi(string as int)),
            ),
            !(1 <= string <= 6) ==> r == Err::<Note, FretboardError>(
                FretboardError::StringOutOfRange { string },
            ),
    {
        validate_string(string)?;
        Ok(standard_open_note(string))
    }

    /// The note sounded at a position: the open string transposed by the fret.
    pub fn note_at(self, position: Position) -> (r: Note)
        ensures
            r == Note::spec_from_midi(midi_at(position)),
            r.spec_midi() == midi_at(position),
            r.spec_pitch_class() == pitch_class_at(position),
    {
        let string = position.string();
        let fret = position.fret();
        let open = standard_open_note(string);
        proof {
            Note::lemma_from_midi(open_midi(string as int));
            Note::lemma_from_midi(midi_at(position));
        }
        open.transpose(Interval::new(fret).unwrap()).unwrap()
    }

    /// Every position of the grid, in the order of `grid()`.
    pub fn all_positions(self) -> (r: Vec<Position>)
        ensures
            r@ == grid(),
    {
        let mut out: Vec<Position> = Vec::new();
        let mut string: u8 = MIN_STRING;
        while string <= MAX_STRING
            invariant
                1 <= string <= 7,
                out@ == grid().take((string - 1) * 25),
            decreases 7 - string,
        {
            let mut fret: u8 = MIN_FRET;
            while fret <= MAX_FRET
                invariant
                    1 <= string <= 6,
                    fret <= 25,
                    out@ == grid().take((string - 1) * 25 + fret),
                decreases 25 - fret,
            {
                let ghost before = out@;
                out.push(Position { string, fret });
                proof {
                    let k = (string - 1) * 25 + fret;
                    assert(grid()[k] == Position::at(string, fret)) by {
                        assert(k / 25 == string - 1 && k % 25 == fret) by (nonlinear_arith)
                            requires
                                k == (string - 1) * 25 + fret,
                                0 <= fret < 25,
                                1 <= string,
                        ;
                    }
                    assert(out@ =~= grid().take(k + 1));
                }
                fret = fret + 1;
            }
            string = string + 1;
        }
        assert(out@ =~= grid());
        out
    }

    /// The positions, in grid order, that sound the given pitch class.
    pub fn positions_for_pitch_class(self, pitch_class: PitchClass) -> (r: Vec<Position>)
        ensures
            r@ == grid().filter(|p: Position| pitch_class_at(p) == pitch_class),
    {
        let all = self.all_positions();
        let ghost pred = |p: Position| pitch_class_at(p) == pitch_class;
        let mut out: Vec<Position> = Vec::new();
        let mut i: usize = 0;
        while i < all.len()
            invariant
                i <= all@.len(),
                all@ == grid(),
                pred == (|p: Position| pitch_class_at(p) == pitch_class),
                out@ == all@.take(i as int).filter(pred),
            decreases all@.len() - i,
        {
            let p = all[i];
            proof {
                reveal_with_fuel(Seq::<_>::filter, 1);
                assert(all@.take(i + 1).drop_last() =~= all@.take(i as int));
            }
            if self.note_at(p).pitch_class() == pitch_class {
                out.push(p);
            }
            i = i + 1;
        }
        assert(all@.take(all@.len() as int) =~= all@);
        out
    }
}


/// Standard tuning: the lowest string, string 6, is E2 (MIDI 40), and each
/// string lies a perfect fourth (5 semitones) above the next lower one,
/// except the B string, string 2, which lies a major third (4) above the G
/// string.
pub proof fn law_standard_tuning(string: int)
    ensures
        open_midi(6) == 40,
        Note::spec_from_midi(40).spec_pitch_class() == PitchClass::E,
        Note::spec_from_midi(40).spec_octave() == 2,
        1 <= string <= 5 ==> open_midi(string) - open_midi(string + 1) == if string == 2 {
            4int
        } else {
            5int
        },
{
    Note::lemma_from_midi(40);
}
} // verus!
