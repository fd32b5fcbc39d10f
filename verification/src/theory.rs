//! Music-theory domain model: pitch classes, notes, intervals, chords and
//! scales, each with a mathematical model over integers and sequences.
use vstd::prelude::*;

use crate::text::{decimal, push_decimal, trim, trim_str};

verus! {

/// The twelve pitch classes in 12-tone equal temperament.
///
/// Enharmonic spellings are normalized to a single canonical variant so the
/// engine can compare, transpose, and deduplicate pitches cheaply.
#[derive(Debug, Clone, Copy, PartialEq, Eq, Hash, PartialOrd, Ord, Structural)]
pub enum PitchClass {
    C,
    CSharp,
    D,
    DSharp,
    E,
    F,
    FSharp,
    G,
    GSharp,
    A,
    ASharp,
    B,
}

impl PitchClass {
    pub const COUNT: u8 = 12;

    /// The number of semitones above C.
    pub open spec fn spec_semitone(self) -> u8 {
        match self {
            PitchClass::C => 0,
            PitchClass::CSharp => 1,
            PitchClass::D => 2,
            PitchClass::DSharp => 3,
            PitchClass::E => 4,
            PitchClass::F => 5,
            PitchClass::FSharp => 6,
            PitchClass::G => 7,
            PitchClass::GSharp => 8,
            PitchClass::A => 9,
            PitchClass::ASharp => 10,
            PitchClass::B => 11,
        }
    }

    /// The pitch class `i` semitones above C, for `0 <= i < 12`.
    pub open spec fn from_index(i: int) -> PitchClass {
        if i == 0 {
            PitchClass::C
        } else if i == 1 {
            PitchClass::CSharp
        } else if i == 2 {
            PitchClass::D
        } else if i == 3 {
            PitchClass::DSharp
        } else if i == 4 {
            PitchClass::E
        } else if i == 5 {
            PitchClass::F
        } else if i == 6 {
            PitchClass::FSharp
        } else if i == 7 {
            PitchClass::G
        } else if i == 8 {
            PitchClass::GSharp
        } else if i == 9 {
            PitchClass::A
        } else if i == 10 {
            PitchClass::ASharp
        } else {
            PitchClass::B
        }
    }

    /// The octave-equivalent pitch class of any semitone count.
    pub open spec fn spec_from_semitones(semitones: int) -> PitchClass {
        PitchClass::from_index(semitones % 12)
    }

    /// Converts any signed semitone value to its octave-equivalent pitch class.
    pub fn from_semitones(semitones: i16) -> (r: Self)
        ensures
            r == Self::spec_from_semitones(semitones as int),
            r.spec_semitone() == (semitones as int) % 12,
    {
        // 32772 is a multiple of 12 that makes every `i16` non-negative.
        let shifted: u32 = (semitones as i32 + 32772) as u32;
        let index: u32 = shifted % 12;
        assert(index as int == (semitones as int) % 12) by {
            assert(32772int == 12 * 2731);
        }
        if index == 0 {
            PitchClass::C
        } else if index == 1 {
            PitchClass::CSharp
        } else if index == 2 {
            PitchClass::D
        } else if index == 3 {
            PitchClass::DSharp
        } else if index == 4 {
            PitchClass::E
        } else if index == 5 {
            PitchClass::F
        } else if index == 6 {
            PitchClass::FSharp
        } else if index == 7 {
            PitchClass::G
        } else if index == 8 {
            PitchClass::GSharp
        } else if index == 9 {
            PitchClass::A
        } else if index == 10 {
            PitchClass::ASharp
        } else {
            PitchClass::B
        }
    }

    #[verifier::when_used_as_spec(spec_semitone)]
    pub fn semitone(self) -> (r: u8)
        ensures
            r == self.spec_semitone(),
            r < 12,
    {
        match self {
            PitchClass::C => 0,
            PitchClass::CSharp => 1,
            PitchClass::D => 2,
            PitchClass::DSharp => 3,
            PitchClass::E => 4,
            PitchClass::F => 5,
            PitchClass::FSharp => 6,
            PitchClass::G => 7,
            PitchClass::GSharp => 8,
            PitchClass::A => 9,
            PitchClass::ASharp => 10,
            PitchClass::B => 11,
        }
    }

    /// The pitch class `interval` above this one.
    pub open spec fn spec_transpose(self, interval: Interval) -> PitchClass {
        PitchClass::spec_from_semitones(self.spec_semitone() + interval.spec_semitones())
    }

    #[verifier::when_used_as_spec(spec_transpose)]
    pub fn transpose(self, interval: Interval) -> (r: Self)
        ensures
            r == self.spec_transpose(interval),
    {
        Self::from_semitones(self.semitone() as i16 + interval.semitones() as i16)
    }

    /// The sharp spelling used when a pitch class is displayed.
    pub open spec fn spec_name(self) -> Seq<char> {
        match self {
            PitchClass::C => "C"@,
            PitchClass::CSharp => "C#"@,
            PitchClass::D => "D"@,
            PitchClass::DSharp => "D#"@,
            PitchClass::E => "E"@,
            PitchClass::F => "F"@,
            PitchClass::FSharp => "F#"@,
            PitchClass::G => "G"@,
            PitchClass::GSharp => "G#"@,
            PitchClass::A => "A"@,
            PitchClass::ASharp => "A#"@,
            PitchClass::B => "B"@,
        }
    }

    pub fn name(self) -> (r: &'static str)
        ensures
            r@ == self.spec_name(),
    {
        match self {
            PitchClass::C => "C",
            PitchClass::CSharp => "C#",
            PitchClass::D => "D",
            PitchClass::DSharp => "D#",
            PitchClass::E => "E",
            PitchClass::F => "F",
            PitchClass::FSharp => "F#",
            PitchClass::G => "G",
            PitchClass::GSharp => "G#",
            PitchClass::A => "A",
            PitchClass::ASharp => "A#",
            PitchClass::B => "B",
        }
    }

    /// The displayed text of the pitch class.
    pub fn to_string(self) -> (r: String)
        ensures
            r@ == self.spec_name(),
    {
        self.name().to_owned()
    }

    /// Which pitch class an already trimmed spelling denotes, if any. Both the
    /// sharp and the flat spelling of each class are accepted, as are the
    /// enharmonic spellings `B#`, `Cb`, `E#` and `Fb`.
    pub open spec fn spec_parse(t: Seq<char>) -> Option<PitchClass> {
        if t.len() == 1 {
            let c = t[0];
            if c == 'C' {
                Some(PitchClass::C)
            } else if c == 'D' {
                Some(PitchClass::D)
            } else if c == 'E' {
                Some(PitchClass::E)
            } else if c == 'F' {
                Some(PitchClass::F)
            } else if c == 'G' {
                Some(PitchClass::G)
            } else if c == 'A' {
                Some(PitchClass::A)
            } else if c == 'B' {
                Some(PitchClass::B)
            } else {
                None
            }
        } else if t.len() == 2 && t[1] == '#' {
            let c = t[0];
            if c == 'C' {
                Some(PitchClass::CSharp)
            } else if c == 'D' {
                Some(PitchClass::DSharp)
            } else if c == 'E' {
                Some(PitchClass::F)
            } else if c == 'F' {
                Some(PitchClass::FSharp)
            } else if c == 'G' {
                Some(PitchClass::GSharp)
            } else if c == 'A' {
                Some(PitchClass::ASharp)
            } else if c == 'B' {
                Some(PitchClass::C)
            } else {
                None
            }
        } else if t.len() == 2 && t[1] == 'b' {
            let c = t[0];
            if c == 'C' {
                Some(PitchClass::B)
            } else if c == 'D' {
                Some(PitchClass::CSharp)
            } else if c == 'E' {
                Some(PitchClass::DSharp)
            } else if c == 'F' {
                Some(PitchClass::E)
            } else if c == 'G' {
                Some(PitchClass::FSharp)
            } else if c == 'A' {
                Some(PitchClass::GSharp)
            } else if c == 'B' {
                Some(PitchClass::ASharp)
            } else {
                None
            }
        } else {
            None
        }
    }

    fn parse_letter(c: char) -> (r: Option<PitchClass>)
        ensures
            r == Self::spec_parse(seq![c]),
    {
        if c == 'C' {
            Some(PitchClass::C)
        } else if c == 'D' {
            Some(PitchClass::D)
        } else if c == 'E' {
            Some(PitchClass::E)
        } else if c == 'F' {
            Some(PitchClass::F)
        } else if c == 'G' {
            Some(PitchClass::G)
        } else if c == 'A' {
            Some(PitchClass::A)
        } else if c == 'B' {
            Some(PitchClass::B)
        } else {
            None
        }
    }

    fn parse_sharp(c: char) -> (r: Option<PitchClass>)
        ensures
            r == Self::spec_parse(seq![c, '#']),
    {
        if c == 'C' {
            Some(PitchClass::CSharp)
        } else if c == 'D' {
            Some(PitchClass::DSharp)
        } else if c == 'E' {
            Some(PitchClass::F)
        } else if c == 'F' {
            Some(PitchClass::FSharp)
        } else if c == 'G' {
            Some(PitchClass::GSharp)
        } else if c == 'A' {
            Some(PitchClass::ASharp)
        } else if c == 'B' {
            Some(PitchClass::C)
        } else {
            None
        }
    }

    fn parse_flat(c: char) -> (r: Option<PitchClass>)
        ensures
            r == Self::spec_parse(seq![c, 'b']),
    {
        if c == 'C' {
            Some(PitchClass::B)
        } else if c == 'D' {
            Some(PitchClass::CSharp)
        } else if c == 'E' {
            Some(PitchClass::DSharp)
        } else if c == 'F' {
            Some(PitchClass::E)
        } else if c == 'G' {
            Some(PitchClass::FSharp)
        } else if c == 'A' {
            Some(PitchClass::GSharp)
        } else if c == 'B' {
            Some(PitchClass::ASharp)
        } else {
            None
        }
    }

    /// Parses a pitch-class spelling, ignoring surrounding white space.
    pub fn parse(value: &str) -> (r: Result<PitchClass, NoteError>)
        ensures
            Self::spec_parse(trim(value@)) matches Some(p) ==> r == Ok::<PitchClass, NoteError>(p),
            Self::spec_parse(trim(value@)) is None ==> (r matches Err(
                NoteError::InvalidPitchClass(s),
            ) && s@ == trim(value@)),
    {
        let t = trim_str(value);
        let n = t.unicode_len();
        let parsed = if n == 1 {
            Self::parse_letter(t.get_char(0))
        } else if n == 2 {
            let second = t.get_char(1);
            if second == '#' {
                Self::parse_sharp(t.get_char(0))
            } else if second == 'b' {
                Self::parse_flat(t.get_char(0))
            } else {
                None
            }
        } else {
            None
        };
        proof {
            if n == 1 {
                assert(t@ =~= seq![t@[0]]);
            } else if n == 2 {
                assert(t@ =~= seq![t@[0], t@[1]]);
            }
        }
        match parsed {
            Some(p) => Ok(p),
            None => Err(NoteError::InvalidPitchClass(t.to_owned())),
        }
    }
}

impl std::str::FromStr for PitchClass {
    type Err = NoteError;

    /// Parses a pitch-class spelling, ignoring surrounding white space, as
    /// `PitchClass::parse` does.
    fn from_str(value: &str) -> (r: Result<Self, Self::Err>)
        ensures
            Self::spec_parse(trim(value@)) matches Some(p) ==> r == Ok::<PitchClass, NoteError>(p),
            Self::spec_parse(trim(value@)) is None ==> (r matches Err(
                NoteError::InvalidPitchClass(s),
            ) && s@ == trim(value@)),
    {
        PitchClass::parse(value)
    }
}

/// Why a note or a pitch class could not be built.
#[derive(Debug, Clone, PartialEq, Eq)]
pub enum NoteError {
    InvalidPitchClass(String),
    OctaveOutOfRange { octave: i8 },
}

/// The decimal rendering of a signed integer.
pub open spec fn signed_decimal(n: int) -> Seq<char> {
    if n < 0 {
        "-"@ + decimal((-n) as nat)
    } else {
        decimal(n as nat)
    }
}

/// Appends the decimal rendering of a signed integer.
pub fn push_signed(out: &mut String, n: i64)
    requires
        n > i64::MIN,
    ensures
        final(out)@ == old(out)@ + signed_decimal(n as int),
{
    if n < 0 {
        out.append("-");
        push_decimal(out, (-n) as u64);
        assert(out@ =~= old(out)@ + signed_decimal(n as int));
    } else {
        push_decimal(out, n as u64);
    }
}

impl NoteError {
    /// The message that the error displays.
    pub open spec fn spec_message(self) -> Seq<char> {
        match self {
            NoteError::InvalidPitchClass(value) => "invalid pitch class: "@ + value@,
            NoteError::OctaveOutOfRange { octave } => "octave "@ + signed_decimal(octave as int)
                + " is outside the supported range 0..=8"@,
        }
    }

    pub fn to_string(&self) -> (r: String)
        ensures
            r@ == self.spec_message(),
    {
        match self {
            NoteError::InvalidPitchClass(value) => {
                let mut out = "invalid pitch class: ".to_owned();
                out.append(value.as_str());
                out
            },
            NoteError::OctaveOutOfRange { octave } => {
                let mut out = "octave ".to_owned();
                push_signed(&mut out, *octave as i64);
                out.append(" is outside the supported range 0..=8");
                out
            },
        }
    }
}

/// A non-negative interval capped at two octaves.
#[derive(Debug, Clone, Copy, PartialEq, Eq, Hash, PartialOrd, Ord, Structural)]
pub struct Interval(u8);

/// Why an interval could not be built.
#[derive(Debug, Clone, Copy, PartialEq, Eq, Structural)]
pub enum IntervalError {
    TooLarge { semitones: u8 },
}

impl IntervalError {
    /// The message that the error displays.
    pub open spec fn spec_message(self) -> Seq<char> {
        match self {
            IntervalError::TooLarge { semitones } => "interval of "@ + decimal(semitones as nat)
                + " semitones exceeds the two-octave limit"@,
        }
    }

    pub fn to_string(&self) -> (r: String)
        ensures
            r@ == self.spec_message(),
    {
        match self {
            IntervalError::TooLarge { semitones } => {
                let mut out = "interval of ".to_owned();
                push_decimal(&mut out, *semitones as u64);
                out.append(" semitones exceeds the two-octave limit");
                out
            },
        }
    }
}

impl Interval {
    pub const MAX_SEMITONES: u8 = 24;

    /// The size of the interval in semitones.
    pub closed spec fn spec_semitones(self) -> u8 {
        self.0
    }

    /// The interval spans at most two octaves.
    #[verifier::type_invariant]
    pub open spec fn wf(self) -> bool {
        self.spec_semitones() <= 24
    }

    /// Two intervals of the same size are the same interval.
    pub proof fn lemma_ext(a: Interval, b: Interval)
        requires
            a.spec_semitones() == b.spec_semitones(),
        ensures
            a == b,
    {
    }

    pub fn new(semitones: u8) -> (r: Result<Self, IntervalError>)
        ensures
            semitones <= 24 ==> (r matches Ok(i) && i.spec_semitones() == semitones),
            semitones > 24 ==> r == Err::<Interval, IntervalError>(
                IntervalError::TooLarge { semitones },
            ),
    {
        if semitones > Self::MAX_SEMITONES {
            return Err(IntervalError::TooLarge { semitones });
        }
        Ok(Interval(semitones))
    }

    /// A unison: no interval at all.
    pub fn unison() -> (r: Self)
        ensures
            r.spec_semitones() == 0,
    {
        Interval(0)
    }

    /// A minor second: one semitone.
    pub fn minor_second() -> (r: Self)
        ensures
            r.spec_semitones() == 1,
    {
        Interval(1)
    }

    /// A major second: two semitones.
    pub fn major_second() -> (r: Self)
        ensures
            r.spec_semitones() == 2,
    {
        Interval(2)
    }

    /// A minor third: three semitones.
    pub fn minor_third() -> (r: Self)
        ensures
            r.spec_semitones() == 3,
    {
        Interval(3)
    }

    /// A major third: four semitones.
    pub fn major_third() -> (r: Self)
        ensures
            r.spec_semitones() == 4,
    {
        Interval(4)
    }

    /// A perfect fourth: five semitones.
    pub fn perfect_fourth() -> (r: Self)
        ensures
            r.spec_semitones() == 5,
    {
        Interval(5)
    }

    /// A tritone: six semitones.
    pub fn tritone() -> (r: Self)
        ensures
            r.spec_semitones() == 6,
    {
        Interval(6)
    }

    /// A perfect fifth: seven semitones.
    pub fn perfect_fifth() -> (r: Self)
        ensures
            r.spec_semitones() == 7,
    {
        Interval(7)
    }

    /// A minor sixth: eight semitones.
    pub fn minor_sixth() -> (r: Self)
        ensures
            r.spec_semitones() == 8,
    {
        Interval(8)
    }

    /// A major sixth: nine semitones.
    pub fn major_sixth() -> (r: Self)
        ensures
            r.spec_semitones() == 9,
    {
        Interval(9)
    }

    /// A minor seventh: ten semitones.
    pub fn minor_seventh() -> (r: Self)
        ensures
            r.spec_semitones() == 10,
    {
        Interval(10)
    }

    /// A major seventh: eleven semitones.
    pub fn major_seventh() -> (r: Self)
        ensures
            r.spec_semitones() == 11,
    {
        Interval(11)
    }

    /// An octave: twelve semitones.
    pub fn octave() -> (r: Self)
        ensures
            r.spec_semitones() == 12,
    {
        Interval(12)
    }

    #[verifier::when_used_as_spec(spec_semitones)]
    pub fn semitones(self) -> (r: u8)
        ensures
            r == self.spec_semitones(),
            r <= 24,
    {
        proof {
            use_type_invariant(&self);
        }
        self.0
    }
}

/// An absolute note with a pitch class and scientific-pitch octave.
///
/// The octave comes first among the fields, so that the derived total order
/// is the order by absolute pitch.
#[derive(Debug, Clone, Copy, PartialEq, Eq, Hash, Ord, Structural)]
pub struct Note {
    octave: i8,
    pitch_class: PitchClass,
}

impl Note {
    pub const MIN_OCTAVE: i8 = 0;
    pub const MAX_OCTAVE: i8 = 8;

    pub closed spec fn spec_pitch_class(self) -> PitchClass {
        self.pitch_class
    }

    pub closed spec fn spec_octave(self) -> i8 {
        self.octave
    }

    /// The octave lies in the supported range `0..=8`.
    #[verifier::type_invariant]
    pub open spec fn wf(self) -> bool {
        0 <= self.spec_octave() <= 8
    }

    /// MIDI note number using C4 = 60.
    pub open spec fn spec_midi(self) -> int {
        (self.spec_octave() + 1) * 12 + self.spec_pitch_class().spec_semitone()
    }

    /// The note whose MIDI number is `midi` (meaningful for `12 <= midi < 120`).
    pub closed spec fn spec_from_midi(midi: int) -> Note {
        Note { octave: (midi / 12 - 1) as i8, pitch_class: PitchClass::spec_from_semitones(midi) }
    }

    /// A valid note is determined by its MIDI number.
    pub proof fn lemma_from_midi(midi: int)
        requires
            12 <= midi < 120,
        ensures
            Note::spec_from_midi(midi).wf(),
            Note::spec_from_midi(midi).spec_midi() == midi,
            Note::spec_from_midi(midi).spec_pitch_class() == PitchClass::spec_from_semitones(midi),
            Note::spec_from_midi(midi).spec_octave() == midi / 12 - 1,
    {
    }

    /// Two valid notes with the same MIDI number are the same note.
    pub proof fn lemma_midi_injective(a: Note, b: Note)
        requires
            a.wf(),
            b.wf(),
            a.spec_midi() == b.spec_midi(),
        ensures
            a == b,
    {
        let pa = a.pitch_class.spec_semitone() as int;
        let pb = b.pitch_class.spec_semitone() as int;
        assert(a.octave == b.octave && pa == pb) by (nonlinear_arith)
            requires
                (a.octave + 1) * 12 + pa == (b.octave + 1) * 12 + pb,
                0 <= pa < 12,
                0 <= pb < 12,
        ;
    }

    pub fn new(pitch_class: PitchClass, octave: i8) -> (r: Result<Self, NoteError>)
        ensures
            0 <= octave <= 8 ==> (r matches Ok(n) && n.spec_pitch_class() == pitch_class
                && n.spec_octave() == octave),
            !(0 <= octave <= 8) ==> r == Err::<Note, NoteError>(
                NoteError::OctaveOutOfRange { octave },
            ),
    {
        if octave < Self::MIN_OCTAVE || octave > Self::MAX_OCTAVE {
            return Err(NoteError::OctaveOutOfRange { octave });
        }
        Ok(Note { octave, pitch_class })
    }

    #[verifier::when_used_as_spec(spec_pitch_class)]
    pub fn pitch_class(self) -> (r: PitchClass)
        ensures
            r == self.spec_pitch_class(),
    {
        self.pitch_class
    }

    #[verifier::when_used_as_spec(spec_octave)]
    pub fn octave(self) -> (r: i8)
        ensures
            r == self.spec_octave(),
            0 <= r <= 8,
    {
        proof {
            use_type_invariant(&self);
        }
        self.octave
    }

    /// MIDI note number using C4 = 60.
    pub fn midi_number(self) -> (r: u8)
        ensures
            r == self.spec_midi(),
            12 <= r < 120,
    {
        proof {
            use_type_invariant(&self);
        }
        ((self.octave + 1) as u8) * PitchClass::COUNT + self.pitch_class.semitone()
    }

    /// The note `interval` above this one, when it stays within octave 8.
    pub fn transpose(self, interval: Interval) -> (r: Result<Self, NoteError>)
        ensures
            self.spec_midi() + interval.spec_semitones() < 120 ==> r == Ok::<Note, NoteError>(
                Note::spec_from_midi(self.spec_midi() + interval.spec_semitones()),
            ),
            self.spec_midi() + interval.spec_semitones() >= 120 ==> r == Err::<Note, NoteError>(
                NoteError::OctaveOutOfRange {
                    octave: ((self.spec_midi() + interval.spec_semitones()) / 12 - 1) as i8,
                },
            ),
    {
        let total: u16 = self.midi_number() as u16 + interval.semitones() as u16;
        let octave: i8 = (total / (PitchClass::COUNT as u16)) as i8 - 1;
        let r = Self::new(PitchClass::from_semitones(total as i16), octave);
        proof {
            if total < 120 {
                assert(Note::spec_from_midi(total as int) == Note {
                    octave,
                    pitch_class: PitchClass::spec_from_semitones(total as int),
                });
            }
        }
        r
    }

    /// The displayed text: pitch class followed by octave, such as `C#4`.
    pub open spec fn spec_text(self) -> Seq<char> {
        self.spec_pitch_class().spec_name() + signed_decimal(self.spec_octave() as int)
    }

    pub fn to_string(self) -> (r: String)
        ensures
            r@ == self.spec_text(),
    {
        let mut out = self.pitch_class().to_string();
        push_signed(&mut out, self.octave() as i64);
        out
    }
}

/// Common chord formulas supported by the engine.
#[derive(Debug, Clone, Copy, PartialEq, Eq, Hash, Structural)]
pub enum ChordQuality {
    Major,
    Minor,
    Diminished,
    Augmented,
    DominantSeventh,
    MajorSeventh,
    MinorSeventh,
}

impl ChordQuality {
    /// The chord formula as semitones above the root.
    pub open spec fn spec_intervals(self) -> Seq<u8> {
        match self {
            ChordQuality::Major => seq![0u8, 4, 7],
            ChordQuality::Minor => seq![0u8, 3, 7],
            ChordQuality::Diminished => seq![0u8, 3, 6],
            ChordQuality::Augmented => seq![0u8, 4, 8],
            ChordQuality::DominantSeventh => seq![0u8, 4, 7, 10],
            ChordQuality::MajorSeventh => seq![0u8, 4, 7, 11],
            ChordQuality::MinorSeventh => seq![0u8, 3, 7, 10],
        }
    }

    pub fn intervals(self) -> (r: &'static [Interval])
        ensures
            r@.len() == self.spec_intervals().len(),
            forall|i: int|
                0 <= i < r@.len() ==> (#[trigger] r@[i]).spec_semitones()
                    == self.spec_intervals()[i],
    {
        match self {
            ChordQuality::Major => &[Interval(0), Interval(4), Interval(7)],
            ChordQuality::Minor => &[Interval(0), Interval(3), Interval(7)],
            ChordQuality::Diminished => &[Interval(0), Interval(3), Interval(6)],
            ChordQuality::Augmented => &[Interval(0), Interval(4), Interval(8)],
            ChordQuality::DominantSeventh => &[Interval(0), Interval(4), Interval(7), Interval(10)],
            ChordQuality::MajorSeventh => &[Interval(0), Interval(4), Interval(7), Interval(11)],
            ChordQuality::MinorSeventh => &[Interval(0), Interval(3), Interval(7), Interval(10)],
        }
    }

    /// The lower-case name of the quality, as in "C major".
    pub open spec fn spec_name(self) -> Seq<char> {
        match self {
            ChordQuality::Major => "major"@,
            ChordQuality::Minor => "minor"@,
            ChordQuality::Diminished => "diminished"@,
            ChordQuality::Augmented => "augmented"@,
            ChordQuality::DominantSeventh => "dominant_seventh"@,
            ChordQuality::MajorSeventh => "major_seventh"@,
            ChordQuality::MinorSeventh => "minor_seventh"@,
        }
    }

    pub fn name(self) -> (r: &'static str)
        ensures
            r@ == self.spec_name(),
    {
        match self {
            ChordQuality::Major => "major",
            ChordQuality::Minor => "minor",
            ChordQuality::Diminished => "diminished",
            ChordQuality::Augmented => "augmented",
            ChordQuality::DominantSeventh => "dominant_seventh",
            ChordQuality::MajorSeventh => "major_seventh",
            ChordQuality::MinorSeventh => "minor_seventh",
        }
    }

    /// The chord-symbol suffix, as in `Dm7`.
    pub open spec fn spec_suffix(self) -> Seq<char> {
        match self {
            ChordQuality::Major => ""@,
            ChordQuality::Minor => "m"@,
            ChordQuality::Diminished => "dim"@,
            ChordQuality::Augmented => "aug"@,
            ChordQuality::DominantSeventh => "7"@,
            ChordQuality::MajorSeventh => "maj7"@,
            ChordQuality::MinorSeventh => "m7"@,
        }
    }

    pub fn suffix(self) -> (r: &'static str)
        ensures
            r@ == self.spec_suffix(),
    {
        match self {
            ChordQuality::Major => "",
            ChordQuality::Minor => "m",
            ChordQuality::Diminished => "dim",
            ChordQuality::Augmented => "aug",
            ChordQuality::DominantSeventh => "7",
            ChordQuality::MajorSeventh => "maj7",
            ChordQuality::MinorSeventh => "m7",
        }
    }
}

/// The pitch classes reached from `root` by each semitone offset, in order.
pub open spec fn transpose_all(root: PitchClass, offsets: Seq<u8>) -> Seq<PitchClass> {
    offsets.map_values(|s: u8| PitchClass::spec_from_semitones(root.spec_semitone() + s))
}

/// Builds `transpose_all(root, offsets)` from a slice of intervals.
fn transpose_intervals(root: PitchClass, intervals: &[Interval], offsets: Ghost<Seq<u8>>) -> (r: Vec<
    PitchClass,
>)
    requires
        intervals@.len() == offsets@.len(),
        forall|i: int|
            0 <= i < intervals@.len() ==> (#[trigger] intervals@[i]).spec_semitones()
                == offsets@[i],
    ensures
        r@ == transpose_all(root, offsets@),
{
    let mut out: Vec<PitchClass> = Vec::new();
    let mut i: usize = 0;
    while i < intervals.len()
        invariant
            i <= intervals@.len(),
            intervals@.len() == offsets@.len(),
            forall|k: int|
                0 <= k < intervals@.len() ==> (#[trigger] intervals@[k]).spec_semitones()
                    == offsets@[k],
            out@ == transpose_all(root, offsets@.take(i as int)),
        decreases intervals@.len() - i,
    {
        out.push(root.transpose(intervals[i]));
        i = i + 1;
        assert(out@ =~= transpose_all(root, offsets@.take(i as int)));
    }
    assert(offsets@.take(i as int) =~= offsets@);
    out
}

/// A chord as a root pitch class and typed quality.
#[derive(Debug, Clone, Copy, PartialEq, Eq, Hash, Structural)]
pub struct Chord {
    root: PitchClass,
    quality: ChordQuality,
}

impl Chord {
    pub closed spec fn spec_root(self) -> PitchClass {
        self.root
    }

    pub closed spec fn spec_quality(self) -> ChordQuality {
        self.quality
    }

    /// The chord with the given root and quality.
    pub closed spec fn spec_of(root: PitchClass, quality: ChordQuality) -> Chord {
        Chord { root, quality }
    }

    pub broadcast proof fn lemma_spec_of(root: PitchClass, quality: ChordQuality)
        ensures
            #[trigger] Chord::spec_of(root, quality).spec_root() == root,
            Chord::spec_of(root, quality).spec_quality() == quality,
    {
    }

    /// Two chords with the same root and quality are the same chord.
    pub proof fn lemma_ext(a: Chord, b: Chord)
        requires
            a.spec_root() == b.spec_root(),
            a.spec_quality() == b.spec_quality(),
        ensures
            a == b,
    {
    }

    pub fn new(root: PitchClass, quality: ChordQuality) -> (r: Self)
        ensures
            r == Chord::spec_of(root, quality),
            r.spec_root() == root,
            r.spec_quality() == quality,
    {
        Chord { root, quality }
    }

    #[verifier::when_used_as_spec(spec_root)]
    pub fn root(self) -> (r: PitchClass)
        ensures
            r == self.spec_root(),
    {
        self.root
    }

    #[verifier::when_used_as_spec(spec_quality)]
    pub fn quality(self) -> (r: ChordQuality)
        ensures
            r == self.spec_quality(),
    {
        self.quality
    }

    /// The chord tones, root first, in the order of the chord formula.
    pub open spec fn spec_pitch_classes(self) -> Seq<PitchClass> {
        transpose_all(self.spec_root(), self.spec_quality().spec_intervals())
    }

    pub fn pitch_classes(self) -> (r: Vec<PitchClass>)
        ensures
            r@ == self.spec_pitch_classes(),
    {
        transpose_intervals(self.root, self.quality.intervals(), Ghost(self.quality.spec_intervals()))
    }

    /// The chord symbol, such as `D`, `Gm` or `Cmaj7`.
    pub open spec fn spec_symbol(self) -> Seq<char> {
        self.spec_root().spec_name() + self.spec_quality().spec_suffix()
    }

    pub fn to_string(self) -> (r: String)
        ensures
            r@ == self.spec_symbol(),
    {
        let mut out = self.root.to_string();
        out.append(self.quality.suffix());
        out
    }
}

/// Scale formulas supported by the engine.
#[derive(Debug, Clone, Copy, PartialEq, Eq, Hash, Structural)]
pub enum ScaleKind {
    Major,
    NaturalMinor,
    HarmonicMinor,
    MajorPentatonic,
    MinorPentatonic,
}

impl ScaleKind {
    /// The scale formula as semitones above the tonic.
    pub open spec fn spec_intervals(self) -> Seq<u8> {
        match self {
            ScaleKind::Major => seq![0u8, 2, 4, 5, 7, 9, 11],
            ScaleKind::NaturalMinor => seq![0u8, 2, 3, 5, 7, 8, 10],
            ScaleKind::HarmonicMinor => seq![0u8, 2, 3, 5, 7, 8, 11],
            ScaleKind::MajorPentatonic => seq![0u8, 2, 4, 7, 9],
            ScaleKind::MinorPentatonic => seq![0u8, 3, 5, 7, 10],
        }
    }

    pub fn intervals(self) -> (r: &'static [Interval])
        ensures
            r@.len() == self.spec_intervals().len(),
            forall|i: int|
                0 <= i < r@.len() ==> (#[trigger] r@[i]).spec_semitones()
                    == self.spec_intervals()[i],
    {
        match self {
            ScaleKind::Major => &[
                Interval(0),
                Interval(2),
                Interval(4),
                Interval(5),
                Interval(7),
                Interval(9),
                Interval(11),
            ],
            ScaleKind::NaturalMinor => &[
                Interval(0),
                Interval(2),
                Interval(3),
                Interval(5),
                Interval(7),
                Interval(8),
                Interval(10),
            ],
            ScaleKind::HarmonicMinor => &[
                Interval(0),
                Interval(2),
                Interval(3),
                Interval(5),
                Interval(7),
                Interval(8),
                Interval(11),
            ],
            ScaleKind::MajorPentatonic => &[
                Interval(0),
                Interval(2),
                Interval(4),
                Interval(7),
                Interval(9),
            ],
            ScaleKind::MinorPentatonic => &[
                Interval(0),
                Interval(3),
                Interval(5),
                Interval(7),
                Interval(10),
            ],
        }
    }
}

/// A scale as a tonic pitch class and a typed scale formula.
#[derive(Debug, Clone, Copy, PartialEq, Eq, Hash, Structural)]
pub struct Scale {
    tonic: PitchClass,
    kind: ScaleKind,
}

impl Scale {
    pub closed spec fn spec_tonic(self) -> PitchClass {
        self.tonic
    }

    pub closed spec fn spec_kind(self) -> ScaleKind {
        self.kind
    }

    pub fn new(tonic: PitchClass, kind: ScaleKind) -> (r: Self)
        ensures
            r.spec_tonic() == tonic,
            r.spec_kind() == kind,
    {
        Scale { tonic, kind }
    }

    #[verifier::when_used_as_spec(spec_tonic)]
    pub fn tonic(self) -> (r: PitchClass)
        ensures
            r == self.spec_tonic(),
    {
        self.tonic
    }

    #[verifier::when_used_as_spec(spec_kind)]
    pub fn kind(self) -> (r: ScaleKind)
        ensures
            r == self.spec_kind(),
    {
        self.kind
    }

    /// The scale degrees, tonic first, in the order of the scale formula.
    pub open spec fn spec_pitch_classes(self) -> Seq<PitchClass> {
        transpose_all(self.spec_tonic(), self.spec_kind().spec_intervals())
    }

    pub fn pitch_classes(self) -> (r: Vec<PitchClass>)
        ensures
            r@ == self.spec_pitch_classes(),
    {
        transpose_intervals(self.tonic, self.kind.intervals(), Ghost(self.kind.spec_intervals()))
    }

    pub fn contains(self, pitch_class: PitchClass) -> (r: bool)
        ensures
            r == self.spec_pitch_classes().contains(pitch_class),
    {
        let pcs = self.pitch_classes();
        let mut i: usize = 0;
        while i < pcs.len()
            invariant
                i <= pcs@.len(),
                pcs@ == self.spec_pitch_classes(),
                forall|k: int| 0 <= k < i ==> pcs@[k] != pitch_class,
            decreases pcs@.len() - i,
        {
            if pcs[i] == pitch_class {
                assert(pcs@[i as int] == pitch_class);
                return true;
            }
            i = i + 1;
        }
        false
    }
}


/// The steps, in semitones, from each degree of a scale to the next, the
/// last one back up to the tonic: whole and half tones, and in the harmonic
/// minor and pentatonic scales a minor third.
pub open spec fn scale_steps(kind: ScaleKind) -> Seq<int> {
    match kind {
        ScaleKind::Major => seq![2int, 2, 1, 2, 2, 2, 1],
        ScaleKind::NaturalMinor => seq![2int, 1, 2, 2, 1, 2, 2],
        ScaleKind::HarmonicMinor => seq![2int, 1, 2, 2, 1, 3, 1],
        ScaleKind::MajorPentatonic => seq![2int, 2, 3, 2, 3],
        ScaleKind::MinorPentatonic => seq![3int, 2, 2, 3, 2],
    }
}

/// Counting semitones up from the pitch class of a count is counting them
/// up from the count.
proof fn lemma_up_from_count(x: int, k: int)
    ensures
        PitchClass::spec_from_semitones(PitchClass::spec_from_semitones(x).spec_semitone() + k)
            == PitchClass::spec_from_semitones(x + k),
{
    assert(PitchClass::spec_from_semitones(x).spec_semitone() == x % 12);
    assert((x % 12 + k) % 12 == (x + k) % 12) by (nonlinear_arith);
}

/// Each scale degree's offset is the one before plus its step, and the
/// steps add up to an octave.
proof fn lemma_steps_offsets(kind: ScaleKind, i: int)
    requires
        0 <= i < kind.spec_intervals().len() - 1,
    ensures
        kind.spec_intervals().len() == scale_steps(kind).len(),
        kind.spec_intervals()[0] == 0,
        kind.spec_intervals()[i + 1] == kind.spec_intervals()[i] + scale_steps(kind)[i],
        kind.spec_intervals().last() + scale_steps(kind).last() == 12,
{
    if i == 0 {
    } else if i == 1 {
    } else if i == 2 {
    } else if i == 3 {
    } else if i == 4 {
    } else {
    }
}

/// A pitch class is the pitch class of its own semitone count.
proof fn lemma_from_own_semitone(p: PitchClass)
    ensures
        PitchClass::spec_from_semitones(p.spec_semitone() as int) == p,
{
    match p {
        PitchClass::C => {},
        PitchClass::CSharp => {},
        PitchClass::D => {},
        PitchClass::DSharp => {},
        PitchClass::E => {},
        PitchClass::F => {},
        PitchClass::FSharp => {},
        PitchClass::G => {},
        PitchClass::GSharp => {},
        PitchClass::A => {},
        PitchClass::ASharp => {},
        PitchClass::B => {},
    }
}

/// One step of a scale: the degree after degree `i` lies its step above it.
proof fn lemma_scale_step(s: Scale, i: int)
    requires
        0 <= i < s.spec_pitch_classes().len() - 1,
    ensures
        s.spec_pitch_classes()[i + 1] == PitchClass::spec_from_semitones(
            s.spec_pitch_classes()[i].spec_semitone() + scale_steps(s.spec_kind())[i],
        ),
{
    let r = s.spec_tonic().spec_semitone() as int;
    let offs = s.spec_kind().spec_intervals();
    lemma_steps_offsets(s.spec_kind(), i);
    lemma_up_from_count(r + offs[i], scale_steps(s.spec_kind())[i]);
}

/// A scale climbs from its tonic by its steps: the first degree is the
/// tonic, each degree lies its step above the one before, and the step
/// after the last degree leads back to the tonic an octave up.
pub proof fn law_scale_steps(s: Scale)
    ensures
        s.spec_pitch_classes().len() == scale_steps(s.spec_kind()).len(),
        s.spec_pitch_classes()[0] == s.spec_tonic(),
        forall|i: int|
            0 <= i < s.spec_pitch_classes().len() - 1 ==> #[trigger] s.spec_pitch_classes()[i + 1]
                == PitchClass::spec_from_semitones(
                s.spec_pitch_classes()[i].spec_semitone() + scale_steps(s.spec_kind())[i],
            ),
        PitchClass::spec_from_semitones(
            s.spec_pitch_classes().last().spec_semitone() + scale_steps(s.spec_kind()).last(),
        ) == s.spec_tonic(),
{
    let r = s.spec_tonic().spec_semitone() as int;
    let offs = s.spec_kind().spec_intervals();
    let steps = scale_steps(s.spec_kind());
    lemma_steps_offsets(s.spec_kind(), 0);
    assert forall|i: int| 0 <= i < s.spec_pitch_classes().len() - 1 implies #[trigger] s.spec_pitch_classes()[i
        + 1] == PitchClass::spec_from_semitones(
        s.spec_pitch_classes()[i].spec_semitone() + steps[i],
    ) by {
        lemma_scale_step(s, i);
    }
    lemma_from_own_semitone(s.spec_tonic());
    assert(s.spec_pitch_classes()[0] == PitchClass::spec_from_semitones(r + offs[0]));
    lemma_up_from_count(r + offs.last(), steps.last());
    assert(s.spec_pitch_classes().last() == PitchClass::spec_from_semitones(r + offs.last()));
    assert((r + 12) % 12 == r % 12);
    assert(PitchClass::spec_from_semitones(r + 12) == PitchClass::spec_from_semitones(r));
}

} // verus!
