//! Musical filters over generated riffs.
use vstd::prelude::*;

use crate::fretboard::Fretboard;
use crate::pathfinding::Riff;

verus! {

/// A musical condition that a riff must meet to be kept.
#[derive(Debug, Clone, PartialEq, Eq)]
pub enum MusicalFilter {
    /// The riff carries exactly this tag.
    RequiredTag(String),
}

/// Whether a riff meets one filter.
pub open spec fn meets_filter(riff: Riff, filter: MusicalFilter) -> bool {
    match filter {
        MusicalFilter::RequiredTag(tag) => riff.spec_tags().contains(tag@),
    }
}

/// Whether a riff meets every filter of a list.
pub open spec fn meets_filters(riff: Riff, filters: Seq<MusicalFilter>) -> bool {
    forall|i: int| 0 <= i < filters.len() ==> meets_filter(riff, #[trigger] filters[i])
}

fn riff_meets_filters(riff: &Riff, filters: &[MusicalFilter]) -> (r: bool)
    ensures
        r == meets_filters(*riff, filters@),
{
    let mut i: usize = 0;
    while i < filters.len()
        invariant
            i <= filters@.len(),
            forall|k: int| 0 <= k < i ==> meets_filter(*riff, #[trigger] filters@[k]),
        decreases filters@.len() - i,
    {
        match &filters[i] {
            MusicalFilter::RequiredTag(tag) => {
                if !riff.has_tag(tag.as_str()) {
                    assert(!meets_filter(*riff, filters@[i as int]));
                    return false;
                }
            },
        }
        i = i + 1;
    }
    true
}

/// Keeps, in order, the riffs that meet every filter.
pub fn apply_musical_filters(fretboard: Fretboard, riffs: Vec<Riff>, filters: &[MusicalFilter]) -> (r:
    Vec<Riff>)
    ensures
        r@ == riffs@.filter(|riff: Riff| meets_filters(riff, filters@)),
{
    let ghost pred = |riff: Riff| meets_filters(riff, filters@);
    let ghost all = riffs@;
    let mut input = riffs;
    // The kept riffs, last one first: riffs are moved out from the back.
    let mut kept_rev: Vec<Riff> = Vec::new();
    proof {
        assert(all.skip(all.len() as int) =~= Seq::<Riff>::empty());
        reveal_with_fuel(Seq::<_>::filter, 1);
        assert(kept_rev@.reverse() =~= Seq::<Riff>::empty());
    }
    while input.len() > 0
        invariant
            pred == (|riff: Riff| meets_filters(riff, filters@)),
            input@.len() <= all.len(),
            input@ == all.take(input@.len() as int),
            kept_rev@.reverse() == all.skip(input@.len() as int).filter(pred),
        decreases input@.len(),
    {
        let ghost n = input@.len();
        let ghost before = kept_rev@;
        let riff = input.pop().unwrap();
        proof {
            assert(input@ =~= all.take(n - 1));
            assert(riff == all[n - 1]);
            assert(all.skip(n - 1) =~= seq![riff] + all.skip(n as int));
            all.skip(n as int).lemma_filter_prepend(riff, pred);
        }
        if riff_meets_filters(&riff, filters) {
            kept_rev.push(riff);
            proof {
                assert(kept_rev@.reverse() =~= seq![riff] + before.reverse());
            }
        } else {
            proof {
                assert(seq![riff].filter(pred) =~= Seq::<Riff>::empty()) by {
                    reveal_with_fuel(Seq::<_>::filter, 2);
                }
                assert(Seq::<Riff>::empty() + before.reverse() =~= before.reverse());
            }
        }
    }
    let ghost reversed = kept_rev@;
    let mut kept: Vec<Riff> = Vec::new();
    proof {
        assert(reversed.take(reversed.len() as int) =~= reversed);
        assert(kept@ =~= reversed.skip(reversed.len() as int).reverse());
    }
    while kept_rev.len() > 0
        invariant
            kept_rev@.len() <= reversed.len(),
            kept_rev@ == reversed.take(kept_rev@.len() as int),
            kept@ == reversed.skip(kept_rev@.len() as int).reverse(),
        decreases kept_rev@.len(),
    {
        let ghost n = kept_rev@.len();
        let riff = kept_rev.pop().unwrap();
        kept.push(riff);
        proof {
            assert(kept_rev@ =~= reversed.take(n - 1));
            assert(kept@ =~= reversed.skip(n - 1).reverse());
        }
    }
    proof {
        assert(all.skip(0) =~= all);
        assert(reversed.skip(0) =~= reversed);
    }
    kept
}

} // verus!
