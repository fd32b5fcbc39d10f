# v-path

A pathfinding engine for the guitar fretboard: given two chords, it finds
short walks over neighbouring fretboard positions from a tone of the first
chord to the root, third or fifth of the second, tags them and ranks them by
physical cost (the sum of squared string and fret moves).

The library in `src/` is written in Verus; every function there carries a
contract over a mathematical model of its data, and `src/laws.rs` proves the
properties that span several functions (the search returns exactly the
walks it promises, ranked; parsing reads back what display writes; the
fretboard grid is complete; hand states stay valid; and so on).

- `src/theory.rs`: pitch classes, notes, intervals, chords and scales.
- `src/fretboard.rs`: positions and the standard-tuned 6 x 24 grid.
- `src/pathfinding.rs`: the depth-first search, physical cost and ranking.
- `src/musical.rs`: tag filters over found riffs.
- `src/fingering.rs`: fretting-hand anchors and their state machine.
- `src/schema.rs`: saved song profiles.
- `src/tui.rs`: the key-driven state machine of the terminal interface and
  the text it shows.
- `src/text.rs`: trimming, case mapping and decimal rendering of text.

`app/` is the terminal program around the library: it reads key presses
with crossterm, draws the library's state with ratatui, and holds the serde
forms of the library's types. `tests/` runs the library on concrete values.
