//! Ordering of containers: value by value, in variant order.
use std::cmp::Ordering;
use vstd::prelude::*;
use vstd::std_specs::cmp::PartialOrdSpec;

verus! {

/// Compares two rows of values lexicographically: the first pair of values
/// that does not compare as equal decides, and rows that are equal value by
/// value are equal.
pub open spec fn lexicographic<V: PartialOrd>(left: Seq<V>, right: Seq<V>) -> Option<Ordering>
    decreases left.len(),
{
    if left.len() == 0 || right.len() == 0 {
        Some(Ordering::Equal)
    } else {
        match left.first().partial_cmp_spec(&right.first()) {
            Some(Ordering::Equal) => lexicographic(left.drop_first(), right.drop_first()),
            decided => decided,
        }
    }
}

/// Skipping the values that compared as equal does not change the outcome.
pub proof fn lemma_lexicographic_step<V: PartialOrd>(left: Seq<V>, right: Seq<V>, done: int)
    requires
        left.len() == right.len(),
        0 <= done < left.len(),
    ensures
        lexicographic(left.skip(done), right.skip(done)) == match left[done].partial_cmp_spec(
            &right[done],
        ) {
            Some(Ordering::Equal) => lexicographic(left.skip(done + 1), right.skip(done + 1)),
            decided => decided,
        },
{
    assert(left.skip(done).first() == left[done]);
    assert(right.skip(done).first() == right[done]);
    assert(left.skip(done).drop_first() =~= left.skip(done + 1));
    assert(right.skip(done).drop_first() =~= right.skip(done + 1));
}

} // verus!
