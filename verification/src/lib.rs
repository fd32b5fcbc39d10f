//! v-path: a pathfinding engine for the guitar fretboard.
//!
//! Musical concepts are typed values with mathematical models (`theory`),
//! the standard-tuned fretboard is a grid of positions (`fretboard`), and
//! riffs between two chords are found by a bounded depth-first search and
//! ranked by physical cost (`pathfinding`, `musical`). `fingering` tracks the
//! fretting hand, `schema` describes saved song profiles, and `tui` is the
//! state machine behind the terminal interface. `laws` states and proves the
//! properties that hold across these modules.
pub mod fingering;
pub mod fretboard;
pub mod laws;
pub mod musical;
pub mod note_order;
pub mod pathfinding;
pub mod schema;
pub mod text;
pub mod theory;
pub mod tui;
