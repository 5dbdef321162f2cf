//! The ordinal contract for built-in types.
use crate::enumerated::{is_ordinal, Enumerated};
use vstd::prelude::*;

verus! {

impl Enumerated for bool {
    const SIZE: usize = 2;

    open spec fn spec_position(self) -> nat {
        if self {
            1
        } else {
            0
        }
    }

    open spec fn spec_variants() -> Seq<bool> {
        seq![false, true]
    }

    fn position(self) -> (p: usize) {
        if self {
            1
        } else {
            0
        }
    }

    fn variants() -> (all: Vec<bool>) {
        let mut all: Vec<bool> = Vec::new();
        all.push(false);
        all.push(true);
        proof {
            assert(all@ =~= seq![false, true]);
        }
        all
    }
}

/// `bool` has two variants, `false` before `true`, and its numbering is a
/// bijection.
pub proof fn lemma_bool_ordinal()
    ensures
        bool::SIZE == 2,
        is_ordinal::<bool>(),
{
}

} // verus!
