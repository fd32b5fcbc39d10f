//! The order of notes by absolute pitch.
use vstd::prelude::*;

use core::cmp::Ordering;
use vstd::std_specs::cmp::PartialOrdSpecImpl;

use crate::theory::Note;

verus! {

/// Notes compare by MIDI number: C#0 comes before C5 although C# comes after C.
pub open spec fn note_order(a: Note, b: Note) -> Option<Ordering> {
    if a.spec_midi() < b.spec_midi() {
        Some(Ordering::Less)
    } else if a.spec_midi() == b.spec_midi() {
        Some(Ordering::Equal)
    } else {
        Some(Ordering::Greater)
    }
}

impl PartialOrd for Note {
    fn partial_cmp(&self, other: &Self) -> (r: Option<Ordering>) {
        let a = self.midi_number();
        let b = other.midi_number();
        if a < b {
            Some(Ordering::Less)
        } else if a == b {
            Some(Ordering::Equal)
        } else {
            Some(Ordering::Greater)
        }
    }
}

impl PartialOrdSpecImpl for Note {
    open spec fn obeys_partial_cmp_spec() -> bool {
        true
    }

    open spec fn partial_cmp_spec(&self, other: &Note) -> Option<Ordering> {
        note_order(*self, *other)
    }
}

} // verus!
