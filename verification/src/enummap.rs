//! A map from every variant of the key type to a value, laid out as a
//! fixed-size array with one element per variant.
use crate::enumerated::{
    is_ordinal, lemma_position_injective, lemma_position_unshared, Enumerated,
};
use crate::enumtable::is_default;
use crate::order::{lemma_lexicographic_step, lexicographic};
use crate::render::{
    debug_text_of, is_debug_failure, is_debug_text, render_map, spec_dump_fails, spec_dumps,
    spec_texts,
};
use std::cmp::Ordering;
use std::marker::PhantomData;
use vstd::prelude::*;
use vstd::std_specs::cmp::PartialEqSpec;
use vstd::std_specs::cmp::PartialOrdSpec;
use vstd::std_specs::iter::IteratorSpec;

verus! {

/// Calls `std::array::from_fn`, which builds an array by calling `f` once
/// with each index, walking forward. The contract claims that element `i` of
/// the result is a value that `f` returns for the argument `i`.
#[verifier::external_body]
fn array_from_fn<V, F: Fn(usize) -> V, const N: usize>(f: F) -> (data: [V; N])
    requires
        forall|i: usize| i < N ==> call_requires(f, (i,)),
    ensures
        forall|i: usize| i < N ==> call_ensures(f, (i,), #[trigger] data@[i as int]),
{
    std::array::from_fn(f)
}

/// A handle on element `index` of `data`.
fn slot_mut<V, const N: usize>(data: &mut [V; N], index: usize) -> (slot: &mut V)
    requires
        index < N,
    ensures
        *slot == old(data)@[index as int],
        final(data)@ == old(data)@.update(index as int, *final(slot)),
    no_unwind
{
    &mut data[index]
}

/// A map from the variants of `K` to values of `V`, backed by an array of
/// `N` elements, where `N` is the number of variants.
pub struct EnumMap<K: Enumerated, V, const N: usize> {
    data: [V; N],
    _key: PhantomData<K>,
}

impl<K: Enumerated, V, const N: usize> View for EnumMap<K, V, N> {
    type V = Seq<V>;

    /// The values in variant order: entry `i` belongs to the variant at
    /// position `i`.
    closed spec fn view(&self) -> Seq<V> {
        self.data@
    }
}

impl<K: Enumerated, V, const N: usize> EnumMap<K, V, N> {
    /// The array has one element per variant.
    #[verifier::type_invariant]
    pub open spec fn wf(self) -> bool {
        N == K::SIZE && self@.len() == N
    }

    /// The value stored for `key`.
    pub open spec fn spec_get(self, key: K) -> V {
        self@[key.spec_position() as int]
    }

    /// A map in which the value of every variant comes from a call of
    /// `default`.
    pub fn new(default: impl Fn() -> V) -> (map: Self)
        requires
            N == K::SIZE,
            call_requires(default, ()),
        ensures
            map.wf(),
            forall|i: int| 0 <= i < N ==> call_ensures(default, (), #[trigger] map@[i]),
            is_ordinal::<K>() ==> forall|key: K|
                call_ensures(default, (), #[trigger] map.spec_get(key)),
    {
        let provider = &default;
        let init = |_index: usize| -> (value: V)
            ensures
                call_ensures(*provider, (), value),
            { provider() };
        let data: [V; N] = array_from_fn(init);
        let map = EnumMap { data, _key: PhantomData };
        proof {
            assert forall|i: int| 0 <= i < N implies call_ensures(
                default,
                (),
                #[trigger] map@[i],
            ) by {
                assert(call_ensures(init, (i as usize,), data@[i as usize as int]));
            }
        }
        map
    }

    /// A map in which the value of every variant comes from a call of
    /// `default` on that variant.
    pub fn new_inspect(default: impl Fn(&K) -> V) -> (map: Self)
        requires
            N == K::SIZE,
            forall|key: K| #[trigger] call_requires(default, (&key,)),
        ensures
            is_ordinal::<K>(),
            map.wf(),
            forall|key: K| call_ensures(default, (&key,), #[trigger] map.spec_get(key)),
            forall|i: int|
                0 <= i < N ==> call_ensures(
                    default,
                    (&K::spec_variants()[i],),
                    #[trigger] map@[i],
                ),
    {
        let keys = K::variants();
        let provider = &default;
        let init = |index: usize| -> (value: V)
            requires
                index < N,
            ensures
                call_ensures(*provider, (&K::spec_variants()[index as int],), value),
            { provider(&keys[index]) };
        let data: [V; N] = array_from_fn(init);
        let map = EnumMap { data, _key: PhantomData };
        proof {
            assert forall|i: int| 0 <= i < N implies call_ensures(
                default,
                (&K::spec_variants()[i],),
                #[trigger] map@[i],
            ) by {
                assert(call_ensures(init, (i as usize,), data@[i as usize as int]));
            }
        }
        map
    }
}

impl<K: Enumerated, V, const N: usize> EnumMap<K, V, N> {
    /// Replaces the value of every variant by the result of a call of
    /// `val_provider`.
    pub fn set_all(&mut self, val_provider: impl Fn() -> V)
        requires
            call_requires(val_provider, ()),
        ensures
            final(self).wf(),
            forall|i: int| 0 <= i < N ==> call_ensures(val_provider, (), #[trigger] final(self)@[i]),
            is_ordinal::<K>() ==> forall|key: K|
                call_ensures(val_provider, (), #[trigger] final(self).spec_get(key)),
    {
        proof {
            use_type_invariant(&*self);
        }
        let mut idx: usize = 0;
        while idx < N
            invariant
                idx <= N,
                N == K::SIZE,
                call_requires(val_provider, ()),
                forall|i: int| 0 <= i < idx ==> call_ensures(val_provider, (), #[trigger] self@[i]),
            decreases N - idx,
        {
            let ghost before = self@;
            let value = val_provider();
            self.data[idx] = value;
            proof {
                assert(self@ == before.update(idx as int, value));
            }
            idx += 1;
        }
    }

    /// The key-value pairs of the map, in variant order.
    pub fn iter_kv(&self) -> (pairs: Vec<(K, &V)>)
        ensures
            is_ordinal::<K>(),
            pairs@.len() == N,
            forall|i: int|
                0 <= i < N ==> (#[trigger] pairs@[i]).0 == K::spec_variants()[i] && *pairs@[i].1
                    == self@[i],
            forall|i: int| 0 <= i < N ==> *(#[trigger] pairs@[i]).1 == self.spec_get(pairs@[i].0),
    {
        proof {
            use_type_invariant(self);
        }
        let keys = K::variants();
        let mut pairs: Vec<(K, &V)> = Vec::new();
        for key in it: keys
            invariant
                N == K::SIZE,
                it.seq() == K::spec_variants(),
                K::spec_variants().len() == N,
                pairs@.len() == it.index(),
                forall|i: int|
                    0 <= i < pairs@.len() ==> (#[trigger] pairs@[i]).0 == K::spec_variants()[i]
                        && *pairs@[i].1 == self@[i],
        {
            let index = pairs.len();
            pairs.push((key, &self.data[index]));
        }
        pairs
    }
}

impl<K: Enumerated, V: Default, const N: usize> EnumMap<K, V, N> {
    /// A map in which every variant has the default value of `V`.
    pub fn new_default() -> (map: Self)
        requires
            N == K::SIZE,
        ensures
            map.wf(),
            forall|i: int| 0 <= i < N ==> is_default(#[trigger] map@[i]),
            is_ordinal::<K>() ==> forall|key: K| is_default(#[trigger] map.spec_get(key)),
    {
        let provider = || -> (value: V)
            ensures
                is_default(value),
            { V::default() };
        Self::new(provider)
    }

    /// Puts the default value of `V` into every slot.
    pub fn clear_set_default(&mut self)
        ensures
            final(self).wf(),
            forall|i: int| 0 <= i < N ==> is_default(#[trigger] final(self)@[i]),
            is_ordinal::<K>() ==> forall|key: K| is_default(#[trigger] final(self).spec_get(key)),
    {
        let provider = || -> (value: V)
            ensures
                is_default(value),
            { V::default() };
        self.set_all(provider);
    }
}

/// The value that the last entry for `key` carries, if `entries` has one.
pub open spec fn spec_last_value<K, V>(entries: Seq<(K, V)>, key: K) -> Option<V>
    decreases entries.len(),
{
    if entries.len() == 0 {
        None
    } else if entries.last().0 == key {
        Some(entries.last().1)
    } else {
        spec_last_value(entries.drop_last(), key)
    }
}

impl<K: Enumerated, V: Default, const N: usize> EnumMap<K, V, N> {
    /// Builds a map from key-value entries given in any order: each entry is
    /// placed in the slot of its key, a later entry for the same key
    /// replaces an earlier one, and a variant that no entry names keeps the
    /// default value.
    pub fn from_entries(entries: Vec<(K, V)>) -> (map: Self)
        requires
            N == K::SIZE,
        ensures
            map.wf(),
            is_ordinal::<K>() ==> forall|key: K|
                #![trigger spec_last_value(entries@, key)]
                #![trigger map.spec_get(key)]
                match spec_last_value(entries@, key) {
                    Some(value) => map.spec_get(key) == value,
                    None => is_default(map.spec_get(key)),
                },
    {
        let mut map = Self::new_default();
        for entry in it: entries
            invariant
                N == K::SIZE,
                it.seq() == entries@,
                is_ordinal::<K>() ==> forall|key: K|
                    #![trigger spec_last_value(entries@.take(it.index()), key)]
                    #![trigger map.spec_get(key)]
                    match spec_last_value(entries@.take(it.index()), key) {
                        Some(value) => map.spec_get(key) == value,
                        None => is_default(map.spec_get(key)),
                    },
        {
            let ghost before = map@;
            let ghost done = entries@.take(it.index());
            let ghost next = entries@.take(it.index() + 1);
            let ghost placed = entry;
            let index = entry.0.position();
            map.data[index] = entry.1;
            proof {
                assert(map@ == before.update(index as int, placed.1));
                assert(next.drop_last() =~= done);
                assert(next.last() == placed);
                assert forall|key: K|
                    #![trigger spec_last_value(next, key)]
                    #![trigger map.spec_get(key)]
                    match spec_last_value(next, key) {
                        Some(value) => map.spec_get(key) == value,
                        None => is_default(map.spec_get(key)),
                    } by {
                    if key != placed.0 {
                        assert(spec_last_value(next, key) == spec_last_value(done, key));
                        if key.spec_position() == placed.0.spec_position() {
                            lemma_position_injective(key, placed.0);
                        }
                    }
                }
            }
        }
        proof {
            assert(entries@.take(entries@.len() as int) =~= entries@);
        }
        map
    }
}

/// The pairs of `keys[i]` with the value in `slots[i]`, for every `i` whose
/// slot holds a value, in ascending order of `i`.
pub open spec fn spec_present<K, V>(keys: Seq<K>, slots: Seq<Option<V>>) -> Seq<(K, V)>
    decreases slots.len(),
{
    if slots.len() == 0 || keys.len() == 0 {
        Seq::empty()
    } else {
        let earlier = spec_present(keys.drop_last(), slots.drop_last());
        match slots.last() {
            Some(value) => earlier.push((keys.last(), value)),
            None => earlier,
        }
    }
}

/// The pairs that `pairs` holds, each value taken out of its reference.
pub open spec fn spec_owned_pairs<K, V>(pairs: Seq<(K, &V)>) -> Seq<(K, V)> {
    Seq::new(pairs.len(), |i: int| (pairs[i].0, *pairs[i].1))
}

impl<K: Enumerated, V, const N: usize> EnumMap<K, Option<V>, N> {
    /// The key-value pairs of the variants that have a value, in variant
    /// order; a variant whose slot is empty is left out.
    pub fn iter_kv_present(&self) -> (pairs: Vec<(K, &V)>)
        ensures
            is_ordinal::<K>(),
            spec_owned_pairs(pairs@) == spec_present(K::spec_variants(), self@),
    {
        proof {
            use_type_invariant(self);
        }
        let keys = K::variants();
        let mut pairs: Vec<(K, &V)> = Vec::new();
        let mut index: usize = 0;
        for key in it: keys
            invariant
                N == K::SIZE,
                self@.len() == N,
                it.seq() == K::spec_variants(),
                K::spec_variants().len() == N,
                index == it.index(),
                spec_owned_pairs(pairs@) == spec_present(
                    K::spec_variants().take(index as int),
                    self@.take(index as int),
                ),
        {
            let ghost listed = key;
            let ghost before = pairs@;
            proof {
                let keys_done = K::spec_variants().take(index as int + 1);
                let slots_done = self@.take(index as int + 1);
                assert(keys_done.drop_last() =~= K::spec_variants().take(index as int));
                assert(slots_done.drop_last() =~= self@.take(index as int));
                assert(keys_done.last() == listed);
                assert(slots_done.last() == self@[index as int]);
            }
            match &self.data[index] {
                Some(value) => {
                    pairs.push((key, value));
                    proof {
                        assert(spec_owned_pairs(pairs@) =~= spec_owned_pairs(before).push(
                            (listed, *value),
                        ));
                    }
                },
                None => {},
            }
            index += 1;
        }
        proof {
            assert(K::spec_variants().take(N as int) =~= K::spec_variants());
            assert(self@.take(N as int) =~= self@);
        }
        pairs
    }
}

impl<K: Enumerated, V, const N: usize> EnumMap<K, Option<V>, N> {
    /// A map in which no variant has a value yet.
    pub fn new_option() -> (map: Self)
        requires
            N == K::SIZE,
        ensures
            map.wf(),
            map@ == Seq::new(N as nat, |i: int| None::<V>),
            is_ordinal::<K>() ==> forall|key: K| #[trigger] map.spec_get(key) == None::<V>,
    {
        let provider = || -> (value: Option<V>)
            ensures
                value == None::<V>,
            { None };
        Self::new(provider)
    }

    /// Empties every slot.
    pub fn clear_set_none(&mut self)
        ensures
            final(self).wf(),
            final(self)@ == Seq::new(N as nat, |i: int| None::<V>),
            is_ordinal::<K>() ==> forall|key: K| #[trigger] final(self).spec_get(key) == None::<V>,
    {
        let provider = || -> (value: Option<V>)
            ensures
                value == None::<V>,
            { None };
        self.set_all(provider);
    }
}

impl<K: Enumerated, V: Copy, const N: usize> EnumMap<K, V, N> {
    /// A map in which every variant has the value `value`.
    pub fn new_with_all(value: V) -> (map: Self)
        requires
            N == K::SIZE,
        ensures
            map.wf(),
            map@ == Seq::new(N as nat, |i: int| value),
            is_ordinal::<K>() ==> forall|key: K| #[trigger] map.spec_get(key) == value,
    {
        let map = EnumMap { data: [value;N], _key: PhantomData };
        proof {
            assert(map@ =~= Seq::new(N as nat, |i: int| value));
        }
        map
    }
}

impl<K: Enumerated, V, const N: usize> EnumMap<K, V, N> {
    /// An iterator over the values, in variant order.
    pub fn iter(&self) -> (values: std::slice::Iter<'_, V>)
        ensures
            values.remaining() == self@.as_ref(),
    {
        broadcast use vstd::std_specs::slice::axiom_spec_slice_iter;

        self.data.as_slice().iter()
    }
}

impl<K: Enumerated, V, const N: usize> std::ops::Index<K> for EnumMap<K, V, N> {
    type Output = V;

    fn index(&self, key: K) -> (value: &V)
        ensures
            is_ordinal::<K>(),
            *value == self.spec_get(key),
    {
        proof {
            use_type_invariant(self);
        }
        &self.data[key.position()]
    }
}

impl<K: Enumerated, V, const N: usize> vstd::std_specs::core::IndexSpecImpl<K> for EnumMap<K, V, N> {
    /// Every key has a slot, so indexing never fails.
    open spec fn index_req(&self, index: &K) -> bool {
        true
    }
}

impl<K: Enumerated, V, const N: usize> std::ops::IndexMut<K> for EnumMap<K, V, N> {
    /// A handle on the slot of `key`: what is written through it becomes the
    /// value of `key`, and no other slot changes.
    fn index_mut(&mut self, key: K) -> (value: &mut V)
        ensures
            is_ordinal::<K>(),
            *value == old(self).spec_get(key),
            final(self).wf(),
            final(self)@ == old(self)@.update(key.spec_position() as int, *final(value)),
            final(self).spec_get(key) == *final(value),
            forall|other: K|
                other != key ==> #[trigger] final(self).spec_get(other) == old(self).spec_get(
                    other,
                ),
    {
        let index = key.position();
        proof {
            use_type_invariant(&*self);
            lemma_position_unshared(key);
        }
        slot_mut(&mut self.data, index)
    }
}

impl<K: Enumerated, V: PartialEq, const N: usize> PartialEq for EnumMap<K, V, N> {
    /// Whether the two maps agree on the value of every variant, as far
    /// as `V`'s own `==` is known.
    fn eq(&self, other: &Self) -> (equal: bool)
        ensures
            V::obeys_eq_spec() && is_ordinal::<K>() ==> (equal <==> forall|key: K|
                (#[trigger] self.spec_get(key)).eq_spec(&other.spec_get(key))),
    {
        proof {
            use_type_invariant(self);
        }
        let mut i: usize = 0;
        while i < N
            invariant
                N == K::SIZE,
                i <= N,
                V::obeys_eq_spec() ==> forall|j: int|
                    0 <= j < i ==> (#[trigger] self@[j]).eq_spec(&other@[j]),
            decreases N - i,
        {
            if !(self.data[i] == other.data[i]) {
                proof {
                    if V::obeys_eq_spec() {
                        assert(!self@[i as int].eq_spec(&other@[i as int]));
                        if is_ordinal::<K>() {
                            let differing = K::spec_variants()[i as int];
                            assert(differing.spec_position() == i);
                            assert(!self.spec_get(differing).eq_spec(&other.spec_get(differing)));
                        }
                    }
                }
                return false;
            }
            i += 1;
        }
        proof {
            if V::obeys_eq_spec() && is_ordinal::<K>() {
                assert forall|key: K| (#[trigger] self.spec_get(key)).eq_spec(
                    &other.spec_get(key),
                ) by {
                    assert(self@[key.spec_position() as int].eq_spec(
                        &other@[key.spec_position() as int],
                    ));
                }
            }
        }
        true
    }
}

impl<K: Enumerated, V: PartialEq, const N: usize> vstd::std_specs::cmp::PartialEqSpecImpl for EnumMap<K, V, N> {
    open spec fn obeys_eq_spec() -> bool {
        V::obeys_eq_spec()
    }

    /// Two maps are equal when their values are equal slot by slot.
    open spec fn eq_spec(&self, other: &Self) -> bool {
        forall|i: int| 0 <= i < N ==> (#[trigger] self@[i]).eq_spec(&other@[i])
    }
}

impl<K: Enumerated, V: PartialEq, const N: usize> EnumMap<K, V, N> {
    /// Two maps are equal exactly when they agree on the value of every
    /// variant.
    pub proof fn lemma_eq_by_key(self, other: Self)
        requires
            is_ordinal::<K>(),
            self.wf(),
        ensures
            self.eq_spec(&other) <==> forall|key: K|
                (#[trigger] self.spec_get(key)).eq_spec(&other.spec_get(key)),
    {
        if forall|key: K| (#[trigger] self.spec_get(key)).eq_spec(&other.spec_get(key)) {
            assert forall|i: int| 0 <= i < N implies (#[trigger] self@[i]).eq_spec(
                &other@[i],
            ) by {
                let key = K::spec_variants()[i];
                assert(key.spec_position() == i);
                assert(self.spec_get(key).eq_spec(&other.spec_get(key)));
            }
        }
    }

    /// Equality of maps is reflexive where equality of values is.
    pub proof fn lemma_eq_reflexive(self)
        requires
            forall|v: V| #[trigger] v.eq_spec(&v),
        ensures
            self.eq_spec(&self),
    {
    }

    /// Equality of maps is symmetric where equality of values is.
    pub proof fn lemma_eq_symmetric(self, other: Self)
        requires
            forall|x: V, y: V| #[trigger] x.eq_spec(&y) ==> y.eq_spec(&x),
            self.eq_spec(&other),
        ensures
            other.eq_spec(&self),
    {
        assert forall|i: int| 0 <= i < N implies (#[trigger] other@[i]).eq_spec(&self@[i]) by {
            assert(self@[i].eq_spec(&other@[i]));
        }
    }

    /// Equality of maps is transitive where equality of values is.
    pub proof fn lemma_eq_transitive(self, second: Self, third: Self)
        requires
            forall|x: V, y: V, z: V|
                #[trigger] x.eq_spec(&y) && #[trigger] y.eq_spec(&z) ==> x.eq_spec(&z),
            self.eq_spec(&second),
            second.eq_spec(&third),
        ensures
            self.eq_spec(&third),
    {
        assert forall|i: int| 0 <= i < N implies (#[trigger] self@[i]).eq_spec(&third@[i]) by {
            assert(self@[i].eq_spec(&second@[i]));
            assert(second@[i].eq_spec(&third@[i]));
        }
    }
}

impl<K: Enumerated, V: PartialOrd, const N: usize> PartialOrd for EnumMap<K, V, N> {
    fn partial_cmp(&self, other: &Self) -> (order: Option<Ordering>) {
        let mut i: usize = 0;
        let ghost mut done: int = 0;
        proof {
            assert(self@.skip(0) =~= self@);
            assert(other@.skip(0) =~= other@);
        }
        while i < N
            invariant
                done == i,
                0 <= done <= N,
                V::obeys_partial_cmp_spec() ==> lexicographic(self@, other@) == lexicographic(
                    self@.skip(done),
                    other@.skip(done),
                ),
            decreases N - done,
        {
            let step = self.data[i].partial_cmp(&other.data[i]);
            proof {
                lemma_lexicographic_step(self@, other@, done);
            }
            match step {
                Some(Ordering::Equal) => {},
                _ => {
                    return step;
                },
            }
            i += 1;
            proof {
                done = done + 1;
            }
        }
        Some(Ordering::Equal)
    }
}

impl<K: Enumerated, V: PartialOrd, const N: usize> vstd::std_specs::cmp::PartialOrdSpecImpl for EnumMap<K, V, N> {
    open spec fn obeys_partial_cmp_spec() -> bool {
        V::obeys_partial_cmp_spec()
    }

    /// Maps are ordered by their values, compared in variant order.
    open spec fn partial_cmp_spec(&self, other: &Self) -> Option<Ordering> {
        lexicographic(self@, other@)
    }
}

impl<K: Enumerated, V: Eq, const N: usize> Eq for EnumMap<K, V, N> {

}

impl<K: Enumerated, V: Clone, const N: usize> Clone for EnumMap<K, V, N> {
    /// A map whose value for each variant is a clone of this map's value.
    fn clone(&self) -> (copy: Self)
        ensures
            copy.wf(),
            forall|i: int| 0 <= i < N ==> cloned(self@[i], #[trigger] copy@[i]),
            is_ordinal::<K>() ==> forall|key: K|
                cloned(self.spec_get(key), #[trigger] copy.spec_get(key)),
    {
        proof {
            use_type_invariant(self);
        }
        let source = &self.data;
        let init = |index: usize| -> (value: V)
            requires
                index < N,
            ensures
                cloned(source@[index as int], value),
            { source[index].clone() };
        let data: [V; N] = array_from_fn(init);
        let copy = EnumMap { data, _key: PhantomData };
        proof {
            assert forall|i: int| 0 <= i < N implies cloned(self@[i], #[trigger] copy@[i]) by {
                assert(call_ensures(init, (i as usize,), data@[i as usize as int]));
            }
        }
        copy
    }
}

impl<K: Enumerated, V: Copy, const N: usize> Copy for EnumMap<K, V, N> {

}

impl<K: Enumerated + std::fmt::Debug, V: std::fmt::Debug, const N: usize> EnumMap<K, V, N> {
    /// A textual dump of the map: one `variant: value` entry per variant, in
    /// variant order, between braces. The text of each key and value is
    /// what its `Debug` implementation writes.
    /// `None` where one of those implementations reports an error.
    pub fn debug_string(&self) -> (dump: Option<String>)
        ensures
            match dump {
                Some(text) => spec_dumps(K::spec_variants(), self@, text@),
                None => spec_dump_fails(K::spec_variants(), self@),
            },
    {
        proof {
            use_type_invariant(self);
        }
        let pairs = self.iter_kv();
        let mut entries: Vec<(String, String)> = Vec::new();
        let mut i: usize = 0;
        while i < pairs.len()
            invariant
                pairs@.len() == N,
                K::spec_variants().len() == N,
                i <= pairs@.len(),
                entries@.len() == i,
                forall|j: int|
                    0 <= j < N ==> (#[trigger] pairs@[j]).0 == K::spec_variants()[j] && *pairs@[j].1
                        == self@[j],
                forall|j: int|
                    0 <= j < i ==> is_debug_text(
                        K::spec_variants()[j],
                        (#[trigger] entries@[j]).0@,
                    ) && is_debug_text(self@[j], entries@[j].1@),
            decreases pairs@.len() - i,
        {
            let key_text = match debug_text_of(&pairs[i].0) {
                Some(written) => written,
                None => {
                    assert(is_debug_failure(K::spec_variants()[i as int]));
                    return None;
                },
            };
            let value_text = match debug_text_of(pairs[i].1) {
                Some(written) => written,
                None => {
                    assert(is_debug_failure(self@[i as int]));
                    return None;
                },
            };
            entries.push((key_text, value_text));
            i += 1;
        }
        let text = render_map(&entries);
        proof {
            let texts = spec_texts(entries@);
            assert forall|j: int| 0 <= j < N implies is_debug_text(
                K::spec_variants()[j],
                (#[trigger] texts[j]).0,
            ) && is_debug_text(self@[j], texts[j].1) by {
                assert(texts[j] == (entries@[j].0@, entries@[j].1@));
            }
        }
        Some(text)
    }
}

} // verus!
