//! A dense table: one always-present value per variant of the key type.
use crate::enumerated::{
    is_ordinal, lemma_position_unshared, lemma_update_at_key, Enumerated,
};
use crate::order::{lemma_lexicographic_step, lexicographic};
use crate::render::{
    debug_text_of, is_debug_failure, is_debug_text, render_map, spec_dump_fails, spec_dumps,
    spec_texts,
};
use std::cmp::Ordering;
use std::marker::PhantomData;
use vstd::prelude::*;
use vstd::std_specs::cmp::PartialEqSpec;
use vstd::std_specs::cmp::PartialOrdSpec;

verus! {

/// `v` is a value that `V::default()` may return.
pub open spec fn is_default<V: Default>(v: V) -> bool {
    call_ensures(V::default, (), v)
}

/// `V::default()` has one possible result only, as it has for the integers,
/// `bool` and `Option`.
pub open spec fn has_one_default<V: Default>() -> bool {
    forall|a: V, b: V| #![trigger is_default(a), is_default(b)] is_default(a) && is_default(b) ==> a == b
}

/// A key-value table with one slot per variant of `K`, each slot holding a
/// value at all times.
pub struct EnumTable<K: Enumerated, V> {
    values: Vec<V>,
    _key_phantom_data: PhantomData<K>,
}

impl<K: Enumerated, V> View for EnumTable<K, V> {
    type V = Seq<V>;

    /// The values in variant order: entry `i` belongs to the variant at
    /// position `i`.
    closed spec fn view(&self) -> Seq<V> {
        self.values@
    }
}

impl<K: Enumerated, V> EnumTable<K, V> {
    /// The buffer holds exactly one slot per variant, and the variants are
    /// numbered as a bijection onto the slots.
    #[verifier::type_invariant]
    pub open spec fn wf(self) -> bool {
        self@.len() == K::SIZE && is_ordinal::<K>()
    }

    /// The value stored for `key`.
    pub open spec fn spec_get(self, key: K) -> V {
        self@[key.spec_position() as int]
    }

    /// Builds a table by asking `cb` for the value of each variant, in
    /// variant order.
    pub fn from_fn(cb: impl Fn(&K) -> V) -> (table: Self)
        requires
            forall|key: K| #[trigger] call_requires(cb, (&key,)),
        ensures
            is_ordinal::<K>(),
            table.wf(),
            forall|key: K| call_ensures(cb, (&key,), #[trigger] table.spec_get(key)),
            forall|i: int|
                0 <= i < K::SIZE ==> call_ensures(
                    cb,
                    (&K::spec_variants()[i],),
                    #[trigger] table@[i],
                ),
    {
        let keys = K::variants();
        let mut values: Vec<V> = Vec::new();
        let mut i: usize = 0;
        while i < keys.len()
            invariant
                keys@ == K::spec_variants(),
                keys@.len() == K::SIZE,
                i <= keys@.len(),
                values@.len() == i,
                forall|key: K| #[trigger] call_requires(cb, (&key,)),
                forall|j: int|
                    0 <= j < i ==> call_ensures(
                        cb,
                        (&K::spec_variants()[j],),
                        #[trigger] values@[j],
                    ),
            decreases keys@.len() - i,
        {
            let value = cb(&keys[i]);
            values.push(value);
            i += 1;
        }
        EnumTable { values, _key_phantom_data: PhantomData }
    }

    /// The value stored for `key`; a table has no absent state.
    pub fn get(&self, key: K) -> (value: &V)
        ensures
            is_ordinal::<K>(),
            *value == self.spec_get(key),
    {
        proof {
            use_type_invariant(self);
        }
        &self.values[key.position()]
    }

    /// Stores `value` under `key`, replacing what was there and touching no
    /// other slot.
    pub fn insert(&mut self, key: K, value: V)
        ensures
            is_ordinal::<K>(),
            final(self).wf(),
            final(self)@ == old(self)@.update(key.spec_position() as int, value),
            final(self).spec_get(key) == value,
            forall|other: K|
                other != key ==> #[trigger] final(self).spec_get(other) == old(self).spec_get(
                    other,
                ),
    {
        let index = key.position();
        proof {
            use_type_invariant(&*self);
            lemma_update_at_key(self@, key, value);
        }
        self.values[index] = value;
    }
}

impl<K: Enumerated, V: Default> EnumTable<K, V> {
    /// A table in which every variant maps to the default value of `V`.
    pub fn new() -> (table: Self)
        ensures
            is_ordinal::<K>(),
            table.wf(),
            forall|key: K| is_default(#[trigger] table.spec_get(key)),
            forall|i: int| 0 <= i < K::SIZE ==> is_default(#[trigger] table@[i]),
    {
        let provider = |_key: &K| -> (value: V)
            ensures
                is_default(value),
            { V::default() };
        Self::from_fn(provider)
    }

    /// Puts the default value of `V` back into the slot of `key`, touching no
    /// other slot.
    pub fn reset(&mut self, key: K)
        ensures
            is_ordinal::<K>(),
            final(self).wf(),
            is_default(final(self).spec_get(key)),
            final(self)@ == old(self)@.update(
                key.spec_position() as int,
                final(self).spec_get(key),
            ),
            forall|other: K|
                other != key ==> #[trigger] final(self).spec_get(other) == old(self).spec_get(
                    other,
                ),
            has_one_default::<V>() && is_default(old(self).spec_get(key)) ==> final(self)@ == old(
                self,
            )@,
    {
        proof {
            use_type_invariant(&*self);
        }
        let ghost before = self@;
        let value = V::default();
        self.insert(key, value);
        proof {
            if has_one_default::<V>() && is_default(before[key.spec_position() as int]) {
                assert(is_default(value));
                assert(value == before[key.spec_position() as int]);
                assert(self@ =~= before);
            }
        }
    }
}

/// Where `V` has one default value only, a reset of a slot that holds the
/// default already changes nothing: a second `reset` leaves the table as
/// the first one left it.
pub proof fn lemma_reset_unchanged<K: Enumerated, V: Default>(slots: Seq<V>, key: K, again: V)
    requires
        is_ordinal::<K>(),
        slots.len() == K::SIZE,
        has_one_default::<V>(),
        is_default(slots[key.spec_position() as int]),
        is_default(again),
    ensures
        slots.update(key.spec_position() as int, again) == slots,
{
    assert(slots.update(key.spec_position() as int, again) =~= slots);
}

/// Resetting the slot of a key is idempotent as far as defaults can be told
/// apart: after one reset or two the slot holds a default value, and every
/// other key has the value it had before.
pub proof fn lemma_reset_idempotent<K: Enumerated, V: Default>(
    slots: Seq<V>,
    key: K,
    first: V,
    second: V,
)
    requires
        is_ordinal::<K>(),
        slots.len() == K::SIZE,
        is_default(first),
        is_default(second),
    ensures
        is_default(slots.update(key.spec_position() as int, first)[key.spec_position() as int]),
        is_default(
            slots.update(key.spec_position() as int, first).update(
                key.spec_position() as int,
                second,
            )[key.spec_position() as int],
        ),
        slots.update(key.spec_position() as int, first).update(key.spec_position() as int, second)
            == slots.update(key.spec_position() as int, second),
        forall|other: K|
            other != key ==> slots.update(key.spec_position() as int, first).update(
                key.spec_position() as int,
                second,
            )[#[trigger] other.spec_position() as int] == slots[other.spec_position() as int],
{
    let p = key.spec_position() as int;
    assert(slots.update(p, first).update(p, second) =~= slots.update(p, second));
    lemma_update_at_key(slots, key, second);
}

impl<K: Enumerated, V: PartialEq> EnumTable<K, V> {
    /// Two tables are equal exactly when they agree on the value of every
    /// variant.
    pub proof fn lemma_eq_by_key(self, other: Self)
        requires
            is_ordinal::<K>(),
        ensures
            self.eq_spec(&other) <==> forall|key: K|
                (#[trigger] self.spec_get(key)).eq_spec(&other.spec_get(key)),
    {
        if forall|key: K| (#[trigger] self.spec_get(key)).eq_spec(&other.spec_get(key)) {
            assert forall|i: int| 0 <= i < K::SIZE implies (#[trigger] self@[i]).eq_spec(
                &other@[i],
            ) by {
                let key = K::spec_variants()[i];
                assert(key.spec_position() == i);
                assert(self.spec_get(key).eq_spec(&other.spec_get(key)));
            }
        }
    }

    /// Equality of tables is reflexive where equality of values is.
    pub proof fn lemma_eq_reflexive(self)
        requires
            forall|v: V| #[trigger] v.eq_spec(&v),
        ensures
            self.eq_spec(&self),
    {
    }

    /// Equality of tables is symmetric where equality of values is.
    pub proof fn lemma_eq_symmetric(self, other: Self)
        requires
            forall|x: V, y: V| #[trigger] x.eq_spec(&y) ==> y.eq_spec(&x),
            self.eq_spec(&other),
        ensures
            other.eq_spec(&self),
    {
        assert forall|i: int| 0 <= i < K::SIZE implies (#[trigger] other@[i]).eq_spec(
            &self@[i],
        ) by {
            assert(self@[i].eq_spec(&other@[i]));
        }
    }

    /// Equality of tables is transitive where equality of values is.
    pub proof fn lemma_eq_transitive(self, second: Self, third: Self)
        requires
            forall|x: V, y: V, z: V|
                #[trigger] x.eq_spec(&y) && #[trigger] y.eq_spec(&z) ==> x.eq_spec(&z),
            self.eq_spec(&second),
            second.eq_spec(&third),
        ensures
            self.eq_spec(&third),
    {
        assert forall|i: int| 0 <= i < K::SIZE implies (#[trigger] self@[i]).eq_spec(
            &third@[i],
        ) by {
            assert(self@[i].eq_spec(&second@[i]));
            assert(second@[i].eq_spec(&third@[i]));
        }
    }
}

impl<K: Enumerated, V: Default> Default for EnumTable<K, V> {
    /// Same as [`EnumTable::new`].
    fn default() -> (table: Self)
        ensures
            is_ordinal::<K>(),
            table.wf(),
            forall|key: K| is_default(#[trigger] table.spec_get(key)),
    {
        Self::new()
    }
}

impl<K: Enumerated, V> std::ops::Index<K> for EnumTable<K, V> {
    type Output = V;

    fn index(&self, key: K) -> (value: &V)
        ensures
            is_ordinal::<K>(),
            *value == self.spec_get(key),
    {
        self.get(key)
    }
}

impl<K: Enumerated, V> vstd::std_specs::core::IndexSpecImpl<K> for EnumTable<K, V> {
    /// Every key has a slot, so indexing never fails.
    open spec fn index_req(&self, index: &K) -> bool {
        true
    }
}

impl<K: Enumerated, V> std::ops::IndexMut<K> for EnumTable<K, V> {
    /// A handle on the slot of `key`: what is written through it becomes the
    /// value of `key`, and no other slot changes.
    fn index_mut(&mut self, key: K) -> (value: &mut V)
        ensures
            is_ordinal::<K>(),
            *value == old(self).spec_get(key),
            final(self).wf(),
            final(self)@ == old(self)@.update(key.spec_position() as int, *final(value)),
            final(self).spec_get(key) == *final(value),
            forall|other: K|
                other != key ==> #[trigger] final(self).spec_get(other) == old(self).spec_get(
                    other,
                ),
    {
        let index = key.position();
        proof {
            use_type_invariant(&*self);
            lemma_position_unshared(key);
        }
        &mut self.values[index]
    }
}

impl<K: Enumerated, V: PartialEq> PartialEq for EnumTable<K, V> {
    /// Whether the two tables agree on the value of every variant, as far
    /// as `V`'s own `==` is known.
    fn eq(&self, other: &Self) -> (equal: bool)
        ensures
            V::obeys_eq_spec() ==> (equal <==> forall|key: K|
                (#[trigger] self.spec_get(key)).eq_spec(&other.spec_get(key))),
    {
        proof {
            use_type_invariant(self);
        }
        proof {
            use_type_invariant(self);
            use_type_invariant(other);
        }
        let mut i: usize = 0;
        while i < self.values.len()
            invariant
                is_ordinal::<K>(),
                self.values@.len() == K::SIZE,
                other.values@.len() == K::SIZE,
                i <= K::SIZE,
                V::obeys_eq_spec() ==> forall|j: int|
                    0 <= j < i ==> (#[trigger] self@[j]).eq_spec(&other@[j]),
            decreases K::SIZE - i,
        {
            if !(self.values[i] == other.values[i]) {
                proof {
                    if V::obeys_eq_spec() {
                        assert(!self@[i as int].eq_spec(&other@[i as int]));
                        if is_ordinal::<K>() {
                            let differing = K::spec_variants()[i as int];
                            assert(differing.spec_position() == i);
                            assert(!self.spec_get(differing).eq_spec(&other.spec_get(differing)));
                        }
                    }
                }
                return false;
            }
            i += 1;
        }
        proof {
            if V::obeys_eq_spec() && is_ordinal::<K>() {
                assert forall|key: K| (#[trigger] self.spec_get(key)).eq_spec(
                    &other.spec_get(key),
                ) by {
                    assert(self@[key.spec_position() as int].eq_spec(
                        &other@[key.spec_position() as int],
                    ));
                }
            }
        }
        true
    }
}

impl<K: Enumerated, V: PartialEq> vstd::std_specs::cmp::PartialEqSpecImpl for EnumTable<K, V> {
    open spec fn obeys_eq_spec() -> bool {
        V::obeys_eq_spec()
    }

    /// Two tables are equal when their values are equal slot by slot.
    open spec fn eq_spec(&self, other: &Self) -> bool {
        forall|i: int| 0 <= i < K::SIZE ==> (#[trigger] self@[i]).eq_spec(&other@[i])
    }
}

impl<K: Enumerated, V: PartialOrd> PartialOrd for EnumTable<K, V> {
    fn partial_cmp(&self, other: &Self) -> (order: Option<Ordering>) {
        proof {
            use_type_invariant(self);
            use_type_invariant(other);
        }
        let mut i: usize = 0;
        let ghost mut done: int = 0;
        proof {
            assert(self@.skip(0) =~= self@);
            assert(other@.skip(0) =~= other@);
        }
        while i < self.values.len()
            invariant
                self.values@.len() == K::SIZE,
                other.values@.len() == K::SIZE,
                done == i,
                0 <= done <= K::SIZE,
                V::obeys_partial_cmp_spec() ==> lexicographic(self@, other@) == lexicographic(
                    self@.skip(done),
                    other@.skip(done),
                ),
            decreases K::SIZE - done,
        {
            let step = self.values[i].partial_cmp(&other.values[i]);
            proof {
                lemma_lexicographic_step(self@, other@, done);
            }
            match step {
                Some(Ordering::Equal) => {},
                _ => {
                    return step;
                },
            }
            i += 1;
            proof {
                done = done + 1;
            }
        }
        Some(Ordering::Equal)
    }
}

impl<K: Enumerated, V: PartialOrd> vstd::std_specs::cmp::PartialOrdSpecImpl for EnumTable<K, V> {
    open spec fn obeys_partial_cmp_spec() -> bool {
        V::obeys_partial_cmp_spec()
    }

    /// Tables are ordered by their values, compared in variant order.
    open spec fn partial_cmp_spec(&self, other: &Self) -> Option<Ordering> {
        lexicographic(self@, other@)
    }
}

impl<K: Enumerated, V: Eq> Eq for EnumTable<K, V> {

}

impl<K: Enumerated + std::fmt::Debug, V: std::fmt::Debug> EnumTable<K, V> {
    /// A textual dump of the table: one `variant: value` entry per variant,
    /// in variant order, between braces. The text of each key and value is
    /// what its `Debug` implementation writes.
    /// `None` where one of those implementations reports an error.
    pub fn debug_string(&self) -> (dump: Option<String>)
        ensures
            match dump {
                Some(text) => spec_dumps(K::spec_variants(), self@, text@),
                None => spec_dump_fails(K::spec_variants(), self@),
            },
    {
        proof {
            use_type_invariant(self);
        }
        let keys = K::variants();
        let mut entries: Vec<(String, String)> = Vec::new();
        let mut i: usize = 0;
        while i < keys.len()
            invariant
                keys@ == K::spec_variants(),
                keys@.len() == K::SIZE,
                self@.len() == K::SIZE,
                i <= keys@.len(),
                entries@.len() == i,
                forall|j: int|
                    0 <= j < i ==> is_debug_text(
                        K::spec_variants()[j],
                        (#[trigger] entries@[j]).0@,
                    ) && is_debug_text(self@[j], entries@[j].1@),
            decreases keys@.len() - i,
        {
            let key_text = match debug_text_of(&keys[i]) {
                Some(written) => written,
                None => {
                    assert(is_debug_failure(K::spec_variants()[i as int]));
                    return None;
                },
            };
            let value_text = match debug_text_of(&self.values[i]) {
                Some(written) => written,
                None => {
                    assert(is_debug_failure(self@[i as int]));
                    return None;
                },
            };
            entries.push((key_text, value_text));
            i += 1;
        }
        let text = render_map(&entries);
        proof {
            let texts = spec_texts(entries@);
            assert forall|j: int| 0 <= j < K::SIZE implies is_debug_text(
                K::spec_variants()[j],
                (#[trigger] texts[j]).0,
            ) && is_debug_text(self@[j], texts[j].1) by {
                assert(texts[j] == (entries@[j].0@, entries@[j].1@));
            }
        }
        Some(text)
    }
}

} // verus!
