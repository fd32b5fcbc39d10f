//! Persistent profile schema for saved songs, chord transitions, and curated
//! riffs.
//!
//! Creator Mode can save several named riff variations for the same chord
//! transition and Live Mode can render them without re-running pathfinding.
//! The canonical YAML and TOML shapes of a profile are given by
//! `YAML_PROFILE_EXAMPLE` and `TOML_PROFILE_EXAMPLE`.
use vstd::prelude::*;

use crate::fretboard::Position;
use crate::pathfinding::{path_cost, physical_cost, texts, Riff};
use crate::theory::{Chord, Scale};

verus! {

/// Current persisted profile schema version.
///
/// Serialization should write this value into `schema_version`; readers should
/// reject unsupported future versions rather than silently misreading profiles.
pub const PROFILE_SCHEMA_VERSION: u16 = 1;

/// Canonical YAML profile skeleton.
pub const YAML_PROFILE_EXAMPLE: &'static str = r#"schema_version: 1
song:
  title: "Example Tune"
  artist: "v-path"
  key:
    tonic: D
    kind: major
  tuning: standard
progression:
  - root: D
    quality: major
  - root: G
    quality: major
transitions:
  - id: d_to_g
    from:
      root: D
      quality: major
    to:
      root: G
      quality: major
    riffs:
      - name: Verse walk-up
        variation: verse
        tags: [target_root, net_ascending]
        physical_cost: 9
        positions:
          - { string: 4, fret: 0 }
          - { string: 4, fret: 2 }
          - { string: 3, fret: 0 }
      - name: Chorus answer
        variation: chorus
        tags: [target_third, contains_third]
        physical_cost: 6
        positions:
          - { string: 3, fret: 2 }
          - { string: 2, fret: 1 }
          - { string: 2, fret: 3 }
"#;

/// Canonical TOML profile skeleton.
pub const TOML_PROFILE_EXAMPLE: &'static str = r#"schema_version = 1

[song]
title = "Example Tune"
artist = "v-path"
tuning = "standard"

[song.key]
tonic = "D"
kind = "major"

[[progression]]
root = "D"
quality = "major"

[[progression]]
root = "G"
quality = "major"

[[transitions]]
id = "d_to_g"
from = { root = "D", quality = "major" }
to = { root = "G", quality = "major" }

[[transitions.riffs]]
name = "Verse walk-up"
variation = "verse"
tags = ["target_root", "net_ascending"]
physical_cost = 9
positions = [
  { string = 4, fret = 0 },
  { string = 4, fret = 2 },
  { string = 3, fret = 0 },
]

[[transitions.riffs]]
name = "Chorus answer"
variation = "chorus"
tags = ["target_third", "contains_third"]
physical_cost = 6
positions = [
  { string = 3, fret = 2 },
  { string = 2, fret = 1 },
  { string = 2, fret = 3 },
]
"#;

/// Top-level saved song profile.
///
/// `progression` stores the song-level chord sequence. `transitions` stores the
/// curated riff choices for any adjacent or repeated chord movement in that
/// progression. Multiple transitions may share the same `from`/`to` chords when
/// a song needs section-specific choices, but the preferred representation is a
/// single transition with multiple named `SavedRiff` variations.
#[derive(Debug, Clone, PartialEq, Eq)]
pub struct SongProfile {
    pub schema_version: u16,
    pub song: SongMetadata,
    pub progression: Vec<Chord>,
    pub transitions: Vec<Transition>,
}

impl SongProfile {
    pub fn new(song: SongMetadata, progression: Vec<Chord>, transitions: Vec<Transition>) -> (r: Self)
        ensures
            r.schema_version == PROFILE_SCHEMA_VERSION,
            r.song == song,
            r.progression == progression,
            r.transitions == transitions,
    {
        SongProfile { schema_version: PROFILE_SCHEMA_VERSION, song, progression, transitions }
    }
}

/// Human-readable song metadata and global musical context.
#[derive(Debug, Clone, PartialEq, Eq)]
pub struct SongMetadata {
    pub title: String,
    pub artist: Option<String>,
    pub key: Scale,
    pub tuning: Tuning,
}

impl SongMetadata {
    pub fn new(title: &str, key: Scale) -> (r: Self)
        ensures
            r.title@ == title@,
            r.artist is None,
            r.key == key,
            r.tuning == Tuning::Standard,
    {
        SongMetadata { title: title.to_owned(), artist: None, key, tuning: Tuning::Standard }
    }

    pub fn with_artist(self, artist: &str) -> (r: Self)
        ensures
            r.title == self.title,
            r.artist matches Some(a) && a@ == artist@,
            r.key == self.key,
            r.tuning == self.tuning,
    {
        let mut out = self;
        out.artist = Some(artist.to_owned());
        out
    }
}

/// Fretboard tuning for a saved profile.
///
/// The engine supports standard tuning only, so the schema captures that
/// assumption explicitly.
#[derive(Debug, Clone, Copy, PartialEq, Eq, Hash, Structural)]
pub enum Tuning {
    Standard,
}

/// A curated set of riff variations between two chords.
#[derive(Debug, Clone, PartialEq, Eq)]
pub struct Transition {
    pub id: String,
    pub from: Chord,
    pub to: Chord,
    pub riffs: Vec<SavedRiff>,
}

impl Transition {
    pub fn new(id: &str, from: Chord, to: Chord, riffs: Vec<SavedRiff>) -> (r: Self)
        ensures
            r.id@ == id@,
            r.from == from,
            r.to == to,
            r.riffs == riffs,
    {
        Transition { id: id.to_owned(), from, to, riffs }
    }
}

/// A saved riff variation selected or authored in Creator Mode.
///
/// `name` is meant for display, while `variation` groups multiple riffs for the
/// same transition by arrangement role such as `verse`, `chorus`, `solo`, or
/// `ending`. `physical_cost` is persisted so Live Mode can sort or display saved
/// choices without recomputing engine scores, but constructors derive it from
/// positions to avoid stale costs in newly-created profiles.
#[derive(Debug, Clone, PartialEq, Eq)]
pub struct SavedRiff {
    pub name: String,
    pub variation: Option<String>,
    pub positions: Vec<Position>,
    pub tags: Vec<String>,
    pub physical_cost: u32,
}

impl SavedRiff {
    pub fn new(name: &str, variation: Option<String>, positions: Vec<Position>, tags: Vec<String>) -> (r:
        Self)
        requires
            path_cost(positions@) <= u32::MAX,
        ensures
            r.name@ == name@,
            r.variation == variation,
            r.positions == positions,
            r.tags == tags,
            r.physical_cost == path_cost(positions@),
    {
        let physical_cost = physical_cost(positions.as_slice());
        SavedRiff { name: name.to_owned(), variation, positions, tags, physical_cost }
    }

    /// Saves an engine riff under a name: its positions, tags and cost.
    pub fn from_riff(name: &str, variation: Option<String>, riff: &Riff) -> (r: Self)
        ensures
            r.name@ == name@,
            r.variation == variation,
            r.positions@ == riff.spec_sequence(),
            texts(r.tags@) == riff.spec_tags(),
            r.physical_cost == riff.spec_cost(),
    {
        proof {
            use_type_invariant(riff);
        }
        let sequence = riff.sequence();
        let mut positions: Vec<Position> = Vec::new();
        let mut i: usize = 0;
        while i < sequence.len()
            invariant
                i <= sequence@.len(),
                positions@ == sequence@.take(i as int),
            decreases sequence@.len() - i,
        {
            positions.push(sequence[i]);
            i = i + 1;
            assert(positions@ =~= sequence@.take(i as int));
        }
        assert(positions@ =~= sequence@);
        let given = riff.tags();
        let mut tags: Vec<String> = Vec::new();
        let mut j: usize = 0;
        while j < given.len()
            invariant
                j <= given@.len(),
                tags@ == given@.take(j as int),
            decreases given@.len() - j,
        {
            tags.push(given[j].clone());
            j = j + 1;
            assert(tags@ =~= given@.take(j as int));
        }
        assert(given@.take(j as int) =~= given@);
        assert(tags@ == given@);
        Self::new(name, variation, positions, tags)
    }
}

} // verus!
