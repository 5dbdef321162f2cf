//! A sparse map: one slot per variant of the key type, each slot either
//! empty or holding a value.
use crate::enumerated::{
    is_ordinal, lemma_position_unshared, lemma_update_at_key, Enumerated,
};
use std::marker::PhantomData;
use vstd::prelude::*;

verus! {

/// A key-value map with one optional slot per variant of `K`. The map owns
/// its buffer; the buffer is acquired once, when the map is made, never
/// resized, and released once, together with the values it holds, when the
/// map goes out of scope.
pub struct EnumMap<K: Enumerated, V> {
    values: Vec<Option<V>>,
    _key_phantom_data: PhantomData<K>,
}

impl<K: Enumerated, V> View for EnumMap<K, V> {
    type V = Seq<Option<V>>;

    /// The slots in variant order: entry `i` belongs to the variant at
    /// position `i`.
    closed spec fn view(&self) -> Seq<Option<V>> {
        self.values@
    }
}

impl<K: Enumerated, V> EnumMap<K, V> {
    /// The buffer holds exactly one slot per variant.
    #[verifier::type_invariant]
    pub open spec fn wf(self) -> bool {
        self@.len() == K::SIZE
    }

    /// What is stored for `key`: `None` while the slot is empty.
    pub open spec fn spec_get(self, key: K) -> Option<V> {
        self@[key.spec_position() as int]
    }

    /// A map with room for every variant of `K` and every slot empty.
    pub fn new() -> (map: Self)
        ensures
            map.wf(),
            map@ == Seq::new(K::SIZE as nat, |i: int| None::<V>),
            is_ordinal::<K>() ==> forall|key: K| #[trigger] map.spec_get(key) == None::<V>,
    {
        let mut values: Vec<Option<V>> = Vec::new();
        let mut i: usize = 0;
        while i < K::SIZE
            invariant
                i <= K::SIZE,
                values@.len() == i,
                forall|j: int| 0 <= j < i ==> #[trigger] values@[j] == None::<V>,
            decreases K::SIZE - i,
        {
            values.push(None);
            i += 1;
        }
        proof {
            assert(values@ =~= Seq::new(K::SIZE as nat, |i: int| None::<V>));
        }
        EnumMap { values, _key_phantom_data: PhantomData }
    }

    /// The value stored for `key`, or `None` if its slot is empty.
    pub fn get(&self, key: K) -> (value: Option<&V>)
        ensures
            is_ordinal::<K>(),
            value == match self.spec_get(key) {
                Some(stored) => Some(&stored),
                None => None,
            },
    {
        proof {
            use_type_invariant(self);
        }
        self.values[key.position()].as_ref()
    }

    /// Stores `value` under `key`, replacing what was there and touching no
    /// other slot.
    pub fn insert(&mut self, key: K, value: V)
        ensures
            is_ordinal::<K>(),
            final(self).wf(),
            final(self)@ == old(self)@.update(key.spec_position() as int, Some(value)),
            final(self).spec_get(key) == Some(value),
            forall|other: K|
                other != key ==> #[trigger] final(self).spec_get(other) == old(self).spec_get(
                    other,
                ),
    {
        let index = key.position();
        proof {
            use_type_invariant(&*self);
            lemma_update_at_key(self@, key, Some(value));
        }
        self.values[index] = Some(value);
    }

    /// Empties the slot of `key`, touching no other slot.
    pub fn remove(&mut self, key: K)
        ensures
            is_ordinal::<K>(),
            final(self).wf(),
            final(self)@ == old(self)@.update(key.spec_position() as int, None::<V>),
            final(self).spec_get(key) == None::<V>,
            forall|other: K|
                other != key ==> #[trigger] final(self).spec_get(other) == old(self).spec_get(
                    other,
                ),
    {
        let index = key.position();
        proof {
            use_type_invariant(&*self);
            lemma_update_at_key(self@, key, None::<V>);
        }
        self.values[index] = None;
    }
}

/// Emptying the slot of a key is idempotent: on a slot that is empty
/// already it changes nothing, so a second `remove` leaves the map as the
/// first one left it.
pub proof fn lemma_remove_idempotent<K: Enumerated, V>(slots: Seq<Option<V>>, key: K)
    requires
        is_ordinal::<K>(),
        slots.len() == K::SIZE,
    ensures
        slots[key.spec_position() as int] is None ==> slots.update(
            key.spec_position() as int,
            None::<V>,
        ) == slots,
        slots.update(key.spec_position() as int, None::<V>).update(
            key.spec_position() as int,
            None::<V>,
        ) == slots.update(key.spec_position() as int, None::<V>),
{
    let p = key.spec_position() as int;
    if slots[p] is None {
        assert(slots.update(p, None::<V>) =~= slots);
    }
    assert(slots.update(p, None::<V>).update(p, None::<V>) =~= slots.update(p, None::<V>));
}

/// A value stored under a key is found under that key and under no other,
/// and is gone once the key is removed.
pub proof fn lemma_insert_then_remove<K: Enumerated, V>(
    slots: Seq<Option<V>>,
    key: K,
    value: V,
)
    requires
        is_ordinal::<K>(),
        slots.len() == K::SIZE,
    ensures
        slots.update(key.spec_position() as int, Some(value))[key.spec_position() as int] == Some(
            value,
        ),
        slots.update(key.spec_position() as int, Some(value)).update(
            key.spec_position() as int,
            None::<V>,
        )[key.spec_position() as int] == None::<V>,
        forall|other: K|
            other != key ==> slots.update(key.spec_position() as int, Some(value))[
                #[trigger] other.spec_position() as int] == slots[other.spec_position() as int],
{
    lemma_update_at_key(slots, key, Some(value));
}

impl<K: Enumerated, V> Default for EnumMap<K, V> {
    /// Same as [`EnumMap::new`].
    fn default() -> (map: Self)
        ensures
            map.wf(),
            map@ == Seq::new(K::SIZE as nat, |i: int| None::<V>),
            is_ordinal::<K>() ==> forall|key: K| #[trigger] map.spec_get(key) == None::<V>,
    {
        Self::new()
    }
}

impl<K: Enumerated, V> std::ops::Index<K> for EnumMap<K, V> {
    type Output = Option<V>;

    fn index(&self, key: K) -> (slot: &Option<V>)
        ensures
            is_ordinal::<K>(),
            *slot == self.spec_get(key),
    {
        proof {
            use_type_invariant(self);
        }
        &self.values[key.position()]
    }
}

impl<K: Enumerated, V> vstd::std_specs::core::IndexSpecImpl<K> for EnumMap<K, V> {
    /// Every key has a slot, so indexing never fails.
    open spec fn index_req(&self, index: &K) -> bool {
        true
    }
}

impl<K: Enumerated, V> std::ops::IndexMut<K> for EnumMap<K, V> {
    /// A handle on the slot of `key`: writing `Some` through it stores a
    /// value, writing `None` empties the slot, and no other slot changes.
    fn index_mut(&mut self, key: K) -> (slot: &mut Option<V>)
        ensures
            is_ordinal::<K>(),
            *slot == old(self).spec_get(key),
            final(self).wf(),
            final(self)@ == old(self)@.update(key.spec_position() as int, *final(slot)),
            final(self).spec_get(key) == *final(slot),
            forall|other: K|
                other != key ==> #[trigger] final(self).spec_get(other) == old(self).spec_get(
                    other,
                ),
    {
        let index = key.position();
        proof {
            use_type_invariant(&*self);
            lemma_position_unshared(key);
        }
        &mut self.values[index]
    }
}

} // verus!
