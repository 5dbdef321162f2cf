//! The ordinal contract: a bijection between the variants of a closed
//! enumeration and the index range `[0, SIZE)`.
use vstd::prelude::*;

verus! {

/// A closed enumeration whose variants are numbered `0, 1, .., SIZE - 1` in
/// declaration order.
///
/// `spec_position` and `spec_variants` are the mathematical reading of
/// `position` and `variants`. An implementation defines both and shows, in
/// `position` and in `variants`, that they are inverse to each other: the
/// listing has `SIZE` entries, every variant is listed at its own position,
/// and every listed entry has the position it is listed at ([`is_ordinal`]).
/// That is what lets a container index a `SIZE`-slot buffer by key without
/// any bounds failure.
pub trait Enumerated: Sized {
    /// Number of variants.
    const SIZE: usize;

    /// The slot that stands for `self`.
    closed spec fn spec_position(self) -> nat {
        arbitrary()
    }

    /// All variants in declaration order.
    closed spec fn spec_variants() -> Seq<Self> {
        arbitrary()
    }

    /// Maps a variant to its unique slot.
    fn position(self) -> (p: usize)
        ensures
            p == self.spec_position(),
            Self::spec_variants().len() == Self::SIZE,
            forall|v: Self|
                #![trigger v.spec_position()]
                v.spec_position() < Self::SIZE && Self::spec_variants()[v.spec_position() as int]
                    == v,
            forall|i: int|
                #![trigger Self::spec_variants()[i]]
                0 <= i < Self::SIZE ==> Self::spec_variants()[i].spec_position() == i,
    ;

    /// All variants, ascending by position.
    fn variants() -> (all: Vec<Self>)
        ensures
            all@ == Self::spec_variants(),
            Self::spec_variants().len() == Self::SIZE,
            forall|v: Self|
                #![trigger v.spec_position()]
                v.spec_position() < Self::SIZE && Self::spec_variants()[v.spec_position() as int]
                    == v,
            forall|i: int|
                #![trigger Self::spec_variants()[i]]
                0 <= i < Self::SIZE ==> Self::spec_variants()[i].spec_position() == i,
    ;
}

/// The numbering of `K` is a bijection between its variants and
/// `[0, SIZE)`: the listing has `SIZE` entries, every variant is listed at
/// its own position, and every listed entry has the position it is listed at.
pub open spec fn is_ordinal<K: Enumerated>() -> bool {
    &&& K::spec_variants().len() == K::SIZE
    &&& forall|v: K|
        #![trigger v.spec_position()]
        v.spec_position() < K::SIZE && K::spec_variants()[v.spec_position() as int] == v
    &&& forall|i: int|
        #![trigger K::spec_variants()[i]]
        0 <= i < K::SIZE ==> K::spec_variants()[i].spec_position() == i
}

/// Every position lies in `[0, SIZE)`.
pub proof fn lemma_position_in_range<K: Enumerated>(v: K)
    requires
        is_ordinal::<K>(),
    ensures
        0 <= v.spec_position() < K::SIZE,
{
}

/// Distinct variants have distinct positions.
pub proof fn lemma_position_injective<K: Enumerated>(a: K, b: K)
    requires
        is_ordinal::<K>(),
        a.spec_position() == b.spec_position(),
    ensures
        a == b,
{
    assert(K::spec_variants()[a.spec_position() as int] == a);
    assert(K::spec_variants()[b.spec_position() as int] == b);
}

/// No other variant shares the position of `key`.
pub proof fn lemma_position_unshared<K: Enumerated>(key: K)
    requires
        is_ordinal::<K>(),
    ensures
        forall|other: K| other != key ==> #[trigger] other.spec_position() != key.spec_position(),
{
    assert forall|other: K| other != key implies #[trigger] other.spec_position()
        != key.spec_position() by {
        if other.spec_position() == key.spec_position() {
            lemma_position_injective(other, key);
        }
    }
}

/// Every index below `SIZE` is the position of some variant.
pub proof fn lemma_position_surjective<K: Enumerated>(i: int)
    requires
        is_ordinal::<K>(),
        0 <= i < K::SIZE,
    ensures
        exists|v: K| v.spec_position() == i,
{
    assert(K::spec_variants()[i].spec_position() == i);
}

/// Looking a variant up in the listing by its own position gives it back.
pub proof fn lemma_variants_roundtrip<K: Enumerated>(v: K)
    requires
        is_ordinal::<K>(),
    ensures
        K::spec_variants()[v.spec_position() as int] == v,
{
}

/// Writing the slot of one variant changes what is stored for that variant
/// and for no other.
pub proof fn lemma_update_at_key<K: Enumerated, V>(slots: Seq<V>, key: K, value: V)
    requires
        is_ordinal::<K>(),
        slots.len() == K::SIZE,
    ensures
        slots.update(key.spec_position() as int, value)[key.spec_position() as int] == value,
        forall|other: K|
            other != key ==> slots.update(key.spec_position() as int, value)[
                #[trigger] other.spec_position() as int] == slots[other.spec_position() as int],
{
    lemma_position_unshared(key);
}

} // verus!
