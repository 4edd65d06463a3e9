//! Maps and sets that keep their entries in the order of insertion, from the `indexmap` crate.
use crate::schema::containers::keyed::{has_key, MapTarget, SetTarget};
use crate::schema::external::ordered_rules::{
    in_order, inserted, lemma_in_order, lemma_set_in_order, place_of,
    set_in_order,
};
use core::hash::{BuildHasher, Hash};
use vstd::prelude::*;
use vstd::std_specs::hash;

verus! {

/// `indexmap::IndexMap`. What it holds is spoken of in the contracts of [`OrderedMap`].
#[verifier::external_type_specification]
#[verifier::external_body]
#[verifier::reject_recursive_types(K)]
#[verifier::reject_recursive_types(V)]
#[verifier::reject_recursive_types(S)]
pub struct ExIndexMap<K, V, S>(indexmap::IndexMap<K, V, S>);

/// `indexmap::IndexSet`. What it holds is spoken of in the contracts of [`OrderedSet`].
#[verifier::external_type_specification]
#[verifier::external_body]
#[verifier::reject_recursive_types(T)]
#[verifier::reject_recursive_types(S)]
pub struct ExIndexSet<T, S>(indexmap::IndexSet<T, S>);

/// Whether keys are told apart as they should be.
pub open spec fn index_model<K, S>() -> bool {
    hash::obeys_key_model::<K>() && hash::builds_valid_hashers::<S>()
}

/// An `indexmap::IndexMap`, and what it holds.
#[verifier::reject_recursive_types(K)]
#[verifier::reject_recursive_types(V)]
#[verifier::reject_recursive_types(S)]
pub struct OrderedMap<K, V, S> {
    inner: indexmap::IndexMap<K, V, S>,
    entries: Ghost<Seq<(K, V)>>,
}

impl<K, V, S> OrderedMap<K, V, S> {
    /// Whether keys are told apart as they should be.
    pub open spec fn lawful(&self) -> bool {
        index_model::<K, S>()
    }

    /// The entries, in order.
    pub closed spec fn entries(&self) -> Seq<(K, V)> {
        self.entries@
    }

    /// The map of the `indexmap` crate.
    pub closed spec fn inner(&self) -> indexmap::IndexMap<K, V, S> {
        self.inner
    }

    /// See [`OrderedMap::inner`].
    pub fn as_inner(&self) -> (m: &indexmap::IndexMap<K, V, S>)
        ensures
            *m == self.inner(),
    {
        &self.inner
    }

    /// `indexmap::IndexMap::len`: the number of entries.
    #[verifier::external_body]
    pub(crate) fn count(&self) -> (n: usize)
        ensures
            n == self.entries().len(),
    {
        self.inner.len()
    }

    /// `indexmap::IndexMap::get_index`: the entry at the given place, if there is one. No other
    /// entry has its key.
    #[verifier::external_body]
    pub(crate) fn entry_at(&self, i: usize) -> (r: Option<(&K, &V)>)
        ensures
            r is Some <==> i < self.entries().len(),
            r matches Some((k, v)) ==> (*k, *v) == self.entries()[i as int],
            r matches Some((k, v)) ==> self.lawful() ==> forall|j: int|
                0 <= j < self.entries().len() && j != i ==> (#[trigger] self.entries()[j]).0 != *k,
    {
        self.inner.get_index(i)
    }
}

impl<K, V, S: Default> OrderedMap<K, V, S> {
    /// `indexmap::IndexMap::default`: a map without entries.
    #[verifier::external_body]
    pub(crate) fn without_entries() -> (m: OrderedMap<K, V, S>)
        ensures
            m.entries() == Seq::<(K, V)>::empty(),
    {
        OrderedMap { inner: indexmap::IndexMap::default(), entries: Ghost(Seq::empty()) }
    }
}

impl<K: Hash + Eq, V, S: BuildHasher> OrderedMap<K, V, S> {
    /// `indexmap::IndexMap::insert`: an entry whose key is there already keeps its place and takes
    /// the new value, and the old one is returned; any other entry comes last. No two entries come
    /// to have the same key.
    #[verifier::external_body]
    pub(crate) fn insert_entry(&mut self, k: K, v: V) -> (r: Option<V>)
        ensures
            old(self).lawful() ==> {
                &&& r is Some <==> has_key(old(self).entries(), k)
                &&& r matches Some(was) ==> was == old(self).entries()[place_of(
                    old(self).entries(),
                    k,
                )].1
                &&& final(self).entries() == inserted(old(self).entries(), k, v)
            },
    {
        self.inner.insert(k, v)
    }
}

impl<K: Hash + Eq, V, S: BuildHasher + Default> OrderedMap<K, V, S> {
    /// A map without entries.
    pub fn new() -> (m: OrderedMap<K, V, S>)
        ensures
            m.entries() == Seq::<(K, V)>::empty(),
    {
        OrderedMap::without_entries()
    }

    /// Inserts an entry. One whose key is there already keeps its place and takes the new value,
    /// and the old value is returned; any other comes last.
    pub fn insert(&mut self, k: K, v: V) -> (r: Option<V>)
        ensures
            old(self).lawful() ==> {
                &&& r is Some <==> has_key(old(self).entries(), k)
                &&& r matches Some(was) ==> was == old(self).entries()[place_of(
                    old(self).entries(),
                    k,
                )].1
                &&& final(self).entries() == inserted(old(self).entries(), k, v)
            },
    {
        self.insert_entry(k, v)
    }
}

impl<K: Hash + Eq, V, S: BuildHasher + Default> MapTarget<K, V> for OrderedMap<K, V, S> {
    open spec fn key_model() -> bool {
        index_model::<K, S>()
    }

    open spec fn holds(&self, es: Seq<(K, V)>) -> bool {
        self.entries() == in_order(es)
    }

    fn empty_map() -> (m: Self) {
        OrderedMap::without_entries()
    }

    fn put(&mut self, k: K, v: V) -> (collided: bool) {
        let replaced = self.insert_entry(k, v);
        proof {
            assert forall|es: Seq<(K, V)>| #[trigger]
                old(self).holds(es) && Self::key_model() implies {
                &&& final(self).holds(es.push((k, v)))
                &&& (replaced is Some) == has_key(es, k)
            } by {
                lemma_in_order(es);
                assert(es.push((k, v)).drop_last() =~= es);
                assert(has_key(in_order(es), k) == has_key(es, k));
            }
        }
        replaced.is_some()
    }
}

/// An `indexmap::IndexSet`, and what it holds.
#[verifier::reject_recursive_types(T)]
#[verifier::reject_recursive_types(S)]
pub struct OrderedSet<T, S> {
    inner: indexmap::IndexSet<T, S>,
    elems: Ghost<Seq<T>>,
}

impl<T, S> OrderedSet<T, S> {
    /// Whether elements are told apart as they should be.
    pub open spec fn lawful(&self) -> bool {
        index_model::<T, S>()
    }

    /// The elements, in order.
    pub closed spec fn elems(&self) -> Seq<T> {
        self.elems@
    }

    /// The set of the `indexmap` crate.
    pub closed spec fn inner(&self) -> indexmap::IndexSet<T, S> {
        self.inner
    }

    /// See [`OrderedSet::inner`].
    pub fn as_inner(&self) -> (s: &indexmap::IndexSet<T, S>)
        ensures
            *s == self.inner(),
    {
        &self.inner
    }

    /// `indexmap::IndexSet::len`: the number of elements.
    #[verifier::external_body]
    pub(crate) fn count(&self) -> (n: usize)
        ensures
            n == self.elems().len(),
    {
        self.inner.len()
    }

    /// `indexmap::IndexSet::get_index`: the element at the given place, if there is one. It is at no
    /// other place.
    #[verifier::external_body]
    pub(crate) fn elem_at(&self, i: usize) -> (r: Option<&T>)
        ensures
            r is Some <==> i < self.elems().len(),
            r matches Some(k) ==> *k == self.elems()[i as int],
            r matches Some(k) ==> self.lawful() ==> forall|j: int|
                0 <= j < self.elems().len() && j != i ==> #[trigger] self.elems()[j] != *k,
    {
        self.inner.get_index(i)
    }
}

impl<T, S: Default> OrderedSet<T, S> {
    /// `indexmap::IndexSet::default`: a set without elements.
    #[verifier::external_body]
    pub(crate) fn without_elems() -> (s: OrderedSet<T, S>)
        ensures
            s.elems() == Seq::<T>::empty(),
    {
        OrderedSet { inner: indexmap::IndexSet::default(), elems: Ghost(Seq::empty()) }
    }
}

impl<T: Hash + Eq, S: BuildHasher> OrderedSet<T, S> {
    /// `indexmap::IndexSet::insert`: an element that is there already stays where it is; any other
    /// comes last. Tells whether it is new.
    #[verifier::external_body]
    pub(crate) fn insert_elem(&mut self, k: T) -> (fresh: bool)
        ensures
            old(self).lawful() ==> {
                &&& fresh == !old(self).elems().contains(k)
                &&& final(self).elems() == if fresh {
                    old(self).elems().push(k)
                } else {
                    old(self).elems()
                }
            },
    {
        self.inner.insert(k)
    }
}

impl<T: Hash + Eq, S: BuildHasher + Default> OrderedSet<T, S> {
    /// A set without elements.
    pub fn new() -> (s: OrderedSet<T, S>)
        ensures
            s.elems() == Seq::<T>::empty(),
    {
        OrderedSet::without_elems()
    }

    /// Inserts an element. One that is there already stays where it is; any other comes last. Tells
    /// whether it is new.
    pub fn insert(&mut self, k: T) -> (fresh: bool)
        ensures
            old(self).lawful() ==> {
                &&& fresh == !old(self).elems().contains(k)
                &&& final(self).elems() == if fresh {
                    old(self).elems().push(k)
                } else {
                    old(self).elems()
                }
            },
    {
        self.insert_elem(k)
    }
}

impl<T: Hash + Eq, S: BuildHasher + Default> SetTarget<T> for OrderedSet<T, S> {
    open spec fn key_model() -> bool {
        index_model::<T, S>()
    }

    open spec fn holds(&self, ks: Seq<T>) -> bool {
        self.elems() == set_in_order(ks)
    }

    fn empty_set() -> (s: Self) {
        OrderedSet::without_elems()
    }

    fn put(&mut self, k: T) -> (collided: bool) {
        let fresh: bool = self.insert_elem(k);
        proof {
            assert forall|ks: Seq<T>| #[trigger] old(self).holds(ks) && Self::key_model() implies {
                &&& final(self).holds(ks.push(k))
                &&& !fresh == ks.contains(k)
            } by {
                lemma_set_in_order(ks);
                assert(ks.push(k).drop_last() =~= ks);
                assert(set_in_order(ks).contains(k) == ks.contains(k));
            }
        }
        !fresh
    }
}

} // verus!
