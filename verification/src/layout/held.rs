//! What maps, sets and collections of any kind stand for, and what it takes for them to come back.
use crate::config::{Config, ConfigCore};
use crate::len::SeqLen;
use crate::model::{Fault, Input};
use crate::schema::containers;
use crate::schema::containers::decode::{dst_vals, src_vals};
use crate::schema::containers::heap::{MaxHeap, Ranked};
use crate::schema::containers::keyed::{enumerates, has_key, image_map, map_of, one_to_one};
use crate::schema::containers::list::LinkedList;
use crate::schema::containers::maps::{
    btree_map_model, btree_map_order, hash_map_model, hash_map_order,
};
use crate::schema::containers::set_rules::lists;
use crate::schema::containers::sets::{
    btree_set_model, btree_set_order, hash_set_model, hash_set_order,
};
use crate::schema::containers::walked::{ReadItems, RoundTripItems, WriteItems};
use crate::schema::external::ordered::{index_model, OrderedMap, OrderedSet};
use crate::schema::external::ordered_rules::{in_order, set_in_order};
use crate::schema::{RoundTrip, SchemaRead, SchemaWrite};
use core::hash::{BuildHasher, Hash};
use std::collections::{BTreeMap, BTreeSet, HashMap, HashSet, VecDeque};
use vstd::layout;
use vstd::prelude::*;
use vstd::std_specs::hash;

verus! {

proof fn lemma_image<A, B, X, Y>(m: Map<A, B>, f: spec_fn(A) -> X, g: spec_fn(B) -> Y)
    requires
        one_to_one(f),
    ensures
        forall|x: X| #[trigger]
            image_map(m, f, g).contains_key(x) <==> exists|a: A| #[trigger]
                m.contains_key(a) && f(a) == x,
        forall|a: A| #[trigger] m.contains_key(a) ==> image_map(m, f, g)[f(a)] == g(m[a]),
{
    assert forall|a: A| #[trigger] m.contains_key(a) implies image_map(m, f, g)[f(a)] == g(
        m[a],
    ) by {
        assert(image_map(m, f, g).contains_key(f(a)));
        let b = choose|b: A| #[trigger] m.contains_key(b) && f(b) == f(a);
        assert(f(b) == f(a));
    }
}

/// A list of the entries of a map comes by each of them once.
pub proof fn law_listed_entries<K, V>(es: Seq<(K, V)>, m: Map<K, V>)
    ensures
        enumerates(es, m) <==> {
            &&& forall|i: int, j: int|
                0 <= i < j < es.len() ==> (#[trigger] es[i]).0 != (#[trigger] es[j]).0
            &&& forall|i: int|
                0 <= i < es.len() ==> m.contains_key((#[trigger] es[i]).0) && m[es[i].0] == es[i].1
            &&& forall|k: K| #[trigger]
                m.contains_key(k) ==> exists|i: int|
                    0 <= i < es.len() && (#[trigger] es[i]).0 == k
        },
{
    assert(forall|k: K| #[trigger]
        has_key(es, k) <==> exists|i: int| 0 <= i < es.len() && (#[trigger] es[i]).0 == k);
    if enumerates(es, m) {
        assert forall|k: K| #[trigger] m.contains_key(k) implies exists|i: int|
            0 <= i < es.len() && (#[trigger] es[i]).0 == k by {
            assert(has_key(es, k));
        }
    }
}

/// A list of the elements of a set comes by each of them once.
pub proof fn law_listed_elements<K>(ks: Seq<K>, s: Set<K>)
    ensures
        lists(ks, s) <==> ks.no_duplicates() && ks.to_set() == s,
{
}

/// What a map or set that is written stands for: what its keys, elements and values stand for.
pub proof fn law_keyed_collections_written_stand_for<
    C: Config,
    K: SchemaWrite<C>,
    V: SchemaWrite<C>,
    Len: SeqLen<C>,
    Dup,
    S: BuildHasher + Default,
>(
    m: HashMap<K::Src, V::Src, S>,
    t: BTreeMap<K::Src, V::Src>,
    s: HashSet<K::Src, S>,
    u: BTreeSet<K::Src>,
    om: OrderedMap<K::Src, V::Src, S>,
    os: OrderedSet<K::Src, S>,
)
    ensures
        (forall|a: K::Src, b: K::Src|
            #![trigger K::src_val(&a), K::src_val(&b)]
            K::src_val(&a) == K::src_val(&b) ==> a == b) ==> {
            &&& forall|x: K::Val| #[trigger]
                <containers::HashMap<K, V, Len, Dup, S> as SchemaWrite<C>>::src_val(
                    &m).contains_key(x) <==> exists|a: K::Src| #[trigger]
                    m@.contains_key(a) && K::src_val(&a) == x
            &&& forall|a: K::Src| #[trigger]
                m@.contains_key(a)
                    ==> <containers::HashMap<K, V, Len, Dup, S> as SchemaWrite<C>>::src_val(
                        &m)[K::src_val(&a)] == V::src_val(&m@[a])
        },
        (forall|a: K::Src, b: K::Src|
            #![trigger K::src_val(&a), K::src_val(&b)]
            K::src_val(&a) == K::src_val(&b) ==> a == b) ==> {
            &&& forall|x: K::Val| #[trigger]
                <containers::BTreeMap<K, V, Len, Dup> as SchemaWrite<C>>::src_val(
                    &t).contains_key(x) <==> exists|a: K::Src| #[trigger]
                    t@.contains_key(a) && K::src_val(&a) == x
            &&& forall|a: K::Src| #[trigger]
                t@.contains_key(a)
                    ==> <containers::BTreeMap<K, V, Len, Dup> as SchemaWrite<C>>::src_val(
                        &t)[K::src_val(&a)] == V::src_val(&t@[a])
        },
        (forall|a: K::Src, b: K::Src|
            #![trigger K::src_val(&a), K::src_val(&b)]
            K::src_val(&a) == K::src_val(&b) ==> a == b) ==> {
            &&& forall|x: K::Val| #[trigger]
                <HashMap<K, V, S> as SchemaWrite<C>>::src_val(&m).contains_key(
                    x) <==> exists|a: K::Src| #[trigger]
                    m@.contains_key(a) && K::src_val(&a) == x
            &&& forall|a: K::Src| #[trigger]
                m@.contains_key(a)
                    ==> <HashMap<K, V, S> as SchemaWrite<C>>::src_val(&m)[K::src_val(&a)]
                        == V::src_val(&m@[a])
        },
        (forall|a: K::Src, b: K::Src|
            #![trigger K::src_val(&a), K::src_val(&b)]
            K::src_val(&a) == K::src_val(&b) ==> a == b) ==> {
            &&& forall|x: K::Val| #[trigger]
                <BTreeMap<K, V> as SchemaWrite<C>>::src_val(&t).contains_key(
                    x) <==> exists|a: K::Src| #[trigger]
                    t@.contains_key(a) && K::src_val(&a) == x
            &&& forall|a: K::Src| #[trigger]
                t@.contains_key(a)
                    ==> <BTreeMap<K, V> as SchemaWrite<C>>::src_val(&t)[K::src_val(&a)]
                        == V::src_val(&t@[a])
        },
        <containers::HashSet<K, Len, Dup, S> as SchemaWrite<C>>::src_val(&s)
            == s@.map(|k: K::Src| K::src_val(&k)),
        <containers::BTreeSet<K, Len, Dup> as SchemaWrite<C>>::src_val(&u)
            == u@.map(|k: K::Src| K::src_val(&k)),
        <HashSet<K, S> as SchemaWrite<C>>::src_val(&s) == s@.map(|k: K::Src| K::src_val(&k)),
        <BTreeSet<K> as SchemaWrite<C>>::src_val(&u) == u@.map(|k: K::Src| K::src_val(&k)),
        <containers::OrderedMapSeq<K, V, Len, Dup, S> as SchemaWrite<C>>::src_val(&om)
            == om.entries().map_values(
            |e: (K::Src, V::Src)| (K::src_val(&e.0), V::src_val(&e.1)),
        ),
        <OrderedMap<K, V, S> as SchemaWrite<C>>::src_val(&om) == om.entries().map_values(
            |e: (K::Src, V::Src)| (K::src_val(&e.0), V::src_val(&e.1)),
        ),
        <containers::OrderedSetSeq<K, Len, Dup, S> as SchemaWrite<C>>::src_val(&os)
            == os.elems().map_values(|k: K::Src| K::src_val(&k)),
        <OrderedSet<K, S> as SchemaWrite<C>>::src_val(&os)
            == os.elems().map_values(|k: K::Src| K::src_val(&k)),
{
    let f = |k: K::Src| K::src_val(&k);
    let g = |v: V::Src| V::src_val(&v);
    if (forall|a: K::Src, b: K::Src|
            #![trigger K::src_val(&a), K::src_val(&b)]
            K::src_val(&a) == K::src_val(&b) ==> a == b) {
        assert(one_to_one(f)) by {
            assert forall|a: K::Src, b: K::Src| #![trigger f(a), f(b)] f(a) == f(b) implies a
                == b by {
                assert(K::src_val(&a) == K::src_val(&b));
            }
        }
        lemma_image(m@, f, g);
        lemma_image(t@, f, g);
        assert(forall|a: K::Src| f(a) == #[trigger] K::src_val(&a));
    }
}

/// What a map or set that was read stands for: what its keys, elements and values stand for.
pub proof fn law_keyed_collections_read_stand_for<
    'de,
    C: Config,
    K: SchemaRead<'de, C>,
    V: SchemaRead<'de, C>,
    Len: SeqLen<C>,
    Dup: containers::DuplicateKeyPolicy,
    S: BuildHasher + Default,
>(
    m: HashMap<K::Dst, V::Dst, S>,
    t: BTreeMap<K::Dst, V::Dst>,
    s: HashSet<K::Dst, S>,
    u: BTreeSet<K::Dst>,
    om: OrderedMap<K::Dst, V::Dst, S>,
    os: OrderedSet<K::Dst, S>,
) where K::Dst: Hash + Eq + Ord
    ensures
        (forall|a: K::Dst, b: K::Dst|
            #![trigger K::dst_val(&a), K::dst_val(&b)]
            K::dst_val(&a) == K::dst_val(&b) ==> a == b) ==> {
            &&& forall|x: K::Val| #[trigger]
                <containers::HashMap<K, V, Len, Dup, S> as SchemaRead<'de, C>>::dst_val(
                    &m).contains_key(x) <==> exists|a: K::Dst| #[trigger]
                    m@.contains_key(a) && K::dst_val(&a) == x
            &&& forall|a: K::Dst| #[trigger]
                m@.contains_key(a)
                    ==> <containers::HashMap<K, V, Len, Dup, S> as SchemaRead<'de, C>>::dst_val(
                        &m)[K::dst_val(&a)] == V::dst_val(&m@[a])
        },
        (forall|a: K::Dst, b: K::Dst|
            #![trigger K::dst_val(&a), K::dst_val(&b)]
            K::dst_val(&a) == K::dst_val(&b) ==> a == b) ==> {
            &&& forall|x: K::Val| #[trigger]
                <containers::BTreeMap<K, V, Len, Dup> as SchemaRead<'de, C>>::dst_val(
                    &t).contains_key(x) <==> exists|a: K::Dst| #[trigger]
                    t@.contains_key(a) && K::dst_val(&a) == x
            &&& forall|a: K::Dst| #[trigger]
                t@.contains_key(a)
                    ==> <containers::BTreeMap<K, V, Len, Dup> as SchemaRead<'de, C>>::dst_val(
                        &t)[K::dst_val(&a)] == V::dst_val(&t@[a])
        },
        (forall|a: K::Dst, b: K::Dst|
            #![trigger K::dst_val(&a), K::dst_val(&b)]
            K::dst_val(&a) == K::dst_val(&b) ==> a == b) ==> {
            &&& forall|x: K::Val| #[trigger]
                <HashMap<K, V, S> as SchemaRead<'de, C>>::dst_val(&m).contains_key(
                    x) <==> exists|a: K::Dst| #[trigger]
                    m@.contains_key(a) && K::dst_val(&a) == x
            &&& forall|a: K::Dst| #[trigger]
                m@.contains_key(a)
                    ==> <HashMap<K, V, S> as SchemaRead<'de, C>>::dst_val(&m)[K::dst_val(&a)]
                        == V::dst_val(&m@[a])
        },
        (forall|a: K::Dst, b: K::Dst|
            #![trigger K::dst_val(&a), K::dst_val(&b)]
            K::dst_val(&a) == K::dst_val(&b) ==> a == b) ==> {
            &&& forall|x: K::Val| #[trigger]
                <BTreeMap<K, V> as SchemaRead<'de, C>>::dst_val(&t).contains_key(
                    x) <==> exists|a: K::Dst| #[trigger]
                    t@.contains_key(a) && K::dst_val(&a) == x
            &&& forall|a: K::Dst| #[trigger]
                t@.contains_key(a)
                    ==> <BTreeMap<K, V> as SchemaRead<'de, C>>::dst_val(&t)[K::dst_val(&a)]
                        == V::dst_val(&t@[a])
        },
        <containers::HashSet<K, Len, Dup, S> as SchemaRead<'de, C>>::dst_val(&s)
            == s@.map(|k: K::Dst| K::dst_val(&k)),
        <containers::BTreeSet<K, Len, Dup> as SchemaRead<'de, C>>::dst_val(&u)
            == u@.map(|k: K::Dst| K::dst_val(&k)),
        <HashSet<K, S> as SchemaRead<'de, C>>::dst_val(&s) == s@.map(|k: K::Dst| K::dst_val(&k)),
        <BTreeSet<K> as SchemaRead<'de, C>>::dst_val(&u) == u@.map(|k: K::Dst| K::dst_val(&k)),
        <containers::OrderedMapSeq<K, V, Len, Dup, S> as SchemaRead<'de, C>>::dst_val(&om)
            == om.entries().map_values(
            |e: (K::Dst, V::Dst)| (K::dst_val(&e.0), V::dst_val(&e.1)),
        ),
        <OrderedMap<K, V, S> as SchemaRead<'de, C>>::dst_val(&om) == om.entries().map_values(
            |e: (K::Dst, V::Dst)| (K::dst_val(&e.0), V::dst_val(&e.1)),
        ),
        <containers::OrderedSetSeq<K, Len, Dup, S> as SchemaRead<'de, C>>::dst_val(&os)
            == os.elems().map_values(|k: K::Dst| K::dst_val(&k)),
        <OrderedSet<K, S> as SchemaRead<'de, C>>::dst_val(&os)
            == os.elems().map_values(|k: K::Dst| K::dst_val(&k)),
{
    let f = |k: K::Dst| K::dst_val(&k);
    let g = |v: V::Dst| V::dst_val(&v);
    if (forall|a: K::Dst, b: K::Dst|
            #![trigger K::dst_val(&a), K::dst_val(&b)]
            K::dst_val(&a) == K::dst_val(&b) ==> a == b) {
        assert(one_to_one(f)) by {
            assert forall|a: K::Dst, b: K::Dst| #![trigger f(a), f(b)] f(a) == f(b) implies a
                == b by {
                assert(K::dst_val(&a) == K::dst_val(&b));
            }
        }
        lemma_image(m@, f, g);
        lemma_image(t@, f, g);
        assert(forall|a: K::Dst| f(a) == #[trigger] K::dst_val(&a));
    }
}

/// Maps and sets come back from reading if their keys, elements and values do, keys stand for
/// different values if they differ, and memory is counted alike.
pub proof fn law_keyed_collections_come_back<
    'de,
    C: Config,
    K: RoundTrip<'de, C>,
    V: RoundTrip<'de, C>,
    Len: SeqLen<C>,
    Dup: containers::DuplicateKeyPolicy,
    S: BuildHasher + Default,
>(
    m: HashMap<K::Src, V::Src, S>,
    t: BTreeMap<K::Src, V::Src>,
    s: HashSet<K::Src, S>,
    u: BTreeSet<K::Src>,
    om: OrderedMap<K::Src, V::Src, S>,
    os: OrderedSet<K::Src, S>,
) where K::Dst: Hash + Eq + Ord
    ensures
        <containers::HashMap<K, V, Len, Dup, S> as RoundTrip<'de, C>>::round_trips()
            == (K::round_trips() && V::round_trips() && (forall|a: K::Src, b: K::Src|
            #![trigger K::src_val(&a), K::src_val(&b)]
            K::src_val(&a) == K::src_val(&b) ==> a == b) && layout::size_of::<(K::Src, V::Src)>()
                == layout::size_of::<
            (K::Dst, V::Dst),
        >() && (K::read_meta() is Static && V::read_meta() is Static ==> K::read_meta()->size
            + V::read_meta()->size <= usize::MAX)),
        <containers::HashMap<K, V, Len, Dup, S> as RoundTrip<'de, C>>::src_valid(&m)
            == (enumerates(hash_map_order(&m), m@) && (forall|i: int|
            0 <= i < hash_map_order(&m).len()
                ==> K::src_valid(&(#[trigger] hash_map_order(&m)[i]).0) && V::src_valid(
                &hash_map_order(&m)[i].1,
            ))),
        <containers::HashMap<K, V, Len, Dup, S> as RoundTrip<'de, C>>::needs_backing()
            == (K::needs_backing() || V::needs_backing()),
        <containers::BTreeMap<K, V, Len, Dup> as RoundTrip<'de, C>>::round_trips()
            == (K::round_trips() && V::round_trips() && (forall|a: K::Src, b: K::Src|
            #![trigger K::src_val(&a), K::src_val(&b)]
            K::src_val(&a) == K::src_val(&b) ==> a == b) && layout::size_of::<(K::Src, V::Src)>()
                == layout::size_of::<
            (K::Dst, V::Dst),
        >() && (K::read_meta() is Static && V::read_meta() is Static ==> K::read_meta()->size
            + V::read_meta()->size <= usize::MAX)),
        <containers::BTreeMap<K, V, Len, Dup> as RoundTrip<'de, C>>::src_valid(&t)
            == (enumerates(btree_map_order(&t), t@) && (forall|i: int|
            0 <= i < btree_map_order(&t).len()
                ==> K::src_valid(&(#[trigger] btree_map_order(&t)[i]).0) && V::src_valid(
                &btree_map_order(&t)[i].1,
            ))),
        <containers::BTreeMap<K, V, Len, Dup> as RoundTrip<'de, C>>::needs_backing()
            == (K::needs_backing() || V::needs_backing()),
        <HashMap<K, V, S> as RoundTrip<'de, C>>::round_trips()
            == (K::round_trips() && V::round_trips() && (forall|a: K::Src, b: K::Src|
            #![trigger K::src_val(&a), K::src_val(&b)]
            K::src_val(&a) == K::src_val(&b) ==> a == b) && layout::size_of::<(K::Src, V::Src)>()
                == layout::size_of::<
            (K::Dst, V::Dst),
        >() && (K::read_meta() is Static && V::read_meta() is Static ==> K::read_meta()->size
            + V::read_meta()->size <= usize::MAX)),
        <HashMap<K, V, S> as RoundTrip<'de, C>>::src_valid(&m)
            == (enumerates(hash_map_order(&m), m@) && (forall|i: int|
            0 <= i < hash_map_order(&m).len()
                ==> K::src_valid(&(#[trigger] hash_map_order(&m)[i]).0) && V::src_valid(
                &hash_map_order(&m)[i].1,
            ))),
        <HashMap<K, V, S> as RoundTrip<'de, C>>::needs_backing()
            == (K::needs_backing() || V::needs_backing()),
        <BTreeMap<K, V> as RoundTrip<'de, C>>::round_trips()
            == (K::round_trips() && V::round_trips() && (forall|a: K::Src, b: K::Src|
            #![trigger K::src_val(&a), K::src_val(&b)]
            K::src_val(&a) == K::src_val(&b) ==> a == b) && layout::size_of::<(K::Src, V::Src)>()
                == layout::size_of::<
            (K::Dst, V::Dst),
        >() && (K::read_meta() is Static && V::read_meta() is Static ==> K::read_meta()->size
            + V::read_meta()->size <= usize::MAX)),
        <BTreeMap<K, V> as RoundTrip<'de, C>>::src_valid(&t)
            == (enumerates(btree_map_order(&t), t@) && (forall|i: int|
            0 <= i < btree_map_order(&t).len()
                ==> K::src_valid(&(#[trigger] btree_map_order(&t)[i]).0) && V::src_valid(
                &btree_map_order(&t)[i].1,
            ))),
        <BTreeMap<K, V> as RoundTrip<'de, C>>::needs_backing()
            == (K::needs_backing() || V::needs_backing()),
        <containers::HashSet<K, Len, Dup, S> as RoundTrip<'de, C>>::round_trips()
            == (K::round_trips() && (forall|a: K::Src, b: K::Src|
            #![trigger K::src_val(&a), K::src_val(&b)]
            K::src_val(&a) == K::src_val(&b) ==> a == b) && layout::size_of::<K::Src>()
                == layout::size_of::<K::Dst>()),
        <containers::HashSet<K, Len, Dup, S> as RoundTrip<'de, C>>::src_valid(&s)
            == (lists(hash_set_order(&s), s@) && hash_set_order(&s).len() == s.len()
                && (forall|i: int|
            0 <= i < hash_set_order(&s).len() ==> K::src_valid(&#[trigger] hash_set_order(&s)[i]))),
        <containers::HashSet<K, Len, Dup, S> as RoundTrip<'de, C>>::needs_backing()
            == K::needs_backing(),
        <containers::BTreeSet<K, Len, Dup> as RoundTrip<'de, C>>::round_trips()
            == (K::round_trips() && (forall|a: K::Src, b: K::Src|
            #![trigger K::src_val(&a), K::src_val(&b)]
            K::src_val(&a) == K::src_val(&b) ==> a == b) && layout::size_of::<K::Src>()
                == layout::size_of::<K::Dst>()),
        <containers::BTreeSet<K, Len, Dup> as RoundTrip<'de, C>>::src_valid(&u)
            == (lists(btree_set_order(&u), u@) && btree_set_order(&u).len() == u.len()
                && (forall|i: int|
            0 <= i < btree_set_order(&u).len()
                ==> K::src_valid(&#[trigger] btree_set_order(&u)[i]))),
        <containers::BTreeSet<K, Len, Dup> as RoundTrip<'de, C>>::needs_backing()
            == K::needs_backing(),
        <HashSet<K, S> as RoundTrip<'de, C>>::round_trips()
            == (K::round_trips() && (forall|a: K::Src, b: K::Src|
            #![trigger K::src_val(&a), K::src_val(&b)]
            K::src_val(&a) == K::src_val(&b) ==> a == b) && layout::size_of::<K::Src>()
                == layout::size_of::<K::Dst>()),
        <HashSet<K, S> as RoundTrip<'de, C>>::src_valid(&s)
            == (lists(hash_set_order(&s), s@) && hash_set_order(&s).len() == s.len()
                && (forall|i: int|
            0 <= i < hash_set_order(&s).len() ==> K::src_valid(&#[trigger] hash_set_order(&s)[i]))),
        <HashSet<K, S> as RoundTrip<'de, C>>::needs_backing() == K::needs_backing(),
        <BTreeSet<K> as RoundTrip<'de, C>>::round_trips()
            == (K::round_trips() && (forall|a: K::Src, b: K::Src|
            #![trigger K::src_val(&a), K::src_val(&b)]
            K::src_val(&a) == K::src_val(&b) ==> a == b) && layout::size_of::<K::Src>()
                == layout::size_of::<K::Dst>()),
        <BTreeSet<K> as RoundTrip<'de, C>>::src_valid(&u)
            == (lists(btree_set_order(&u), u@) && btree_set_order(&u).len() == u.len()
                && (forall|i: int|
            0 <= i < btree_set_order(&u).len()
                ==> K::src_valid(&#[trigger] btree_set_order(&u)[i]))),
        <BTreeSet<K> as RoundTrip<'de, C>>::needs_backing() == K::needs_backing(),
        <containers::OrderedMapSeq<K, V, Len, Dup, S> as RoundTrip<'de, C>>::round_trips()
            == (K::round_trips() && V::round_trips() && (forall|a: K::Src, b: K::Src|
            #![trigger K::src_val(&a), K::src_val(&b)]
            K::src_val(&a) == K::src_val(&b) ==> a == b) && layout::size_of::<(K::Src, V::Src)>()
                == layout::size_of::<
            (K::Dst, V::Dst),
        >() && (K::read_meta() is Static && V::read_meta() is Static ==> K::read_meta()->size
            + V::read_meta()->size <= usize::MAX)),
        <containers::OrderedMapSeq<K, V, Len, Dup, S> as RoundTrip<'de, C>>::src_valid(&om)
            == (om.entries().len() <= usize::MAX && (forall|i: int, j: int|
            0 <= i < j < om.entries().len()
                ==> (#[trigger] om.entries()[i]).0 != (#[trigger] om.entries()[j]).0)
            && (forall|i: int|
            0 <= i < om.entries().len()
                ==> K::src_valid(&(#[trigger] om.entries()[i]).0) && V::src_valid(
                &om.entries()[i].1,
            ))),
        <containers::OrderedMapSeq<K, V, Len, Dup, S> as RoundTrip<'de, C>>::needs_backing()
            == (K::needs_backing() || V::needs_backing()),
        <OrderedMap<K, V, S> as RoundTrip<'de, C>>::round_trips()
            == (K::round_trips() && V::round_trips() && (forall|a: K::Src, b: K::Src|
            #![trigger K::src_val(&a), K::src_val(&b)]
            K::src_val(&a) == K::src_val(&b) ==> a == b) && layout::size_of::<(K::Src, V::Src)>()
                == layout::size_of::<
            (K::Dst, V::Dst),
        >() && (K::read_meta() is Static && V::read_meta() is Static ==> K::read_meta()->size
            + V::read_meta()->size <= usize::MAX)),
        <OrderedMap<K, V, S> as RoundTrip<'de, C>>::src_valid(&om)
            == (om.entries().len() <= usize::MAX && (forall|i: int, j: int|
            0 <= i < j < om.entries().len()
                ==> (#[trigger] om.entries()[i]).0 != (#[trigger] om.entries()[j]).0)
            && (forall|i: int|
            0 <= i < om.entries().len()
                ==> K::src_valid(&(#[trigger] om.entries()[i]).0) && V::src_valid(
                &om.entries()[i].1,
            ))),
        <OrderedMap<K, V, S> as RoundTrip<'de, C>>::needs_backing()
            == (K::needs_backing() || V::needs_backing()),
        <containers::OrderedSetSeq<K, Len, Dup, S> as RoundTrip<'de, C>>::round_trips()
            == (K::round_trips() && (forall|a: K::Src, b: K::Src|
            #![trigger K::src_val(&a), K::src_val(&b)]
            K::src_val(&a) == K::src_val(&b) ==> a == b) && layout::size_of::<K::Src>()
                == layout::size_of::<K::Dst>()),
        <containers::OrderedSetSeq<K, Len, Dup, S> as RoundTrip<'de, C>>::src_valid(&os)
            == (os.elems().len() <= usize::MAX && os.elems().no_duplicates()
            && (forall|i: int|
            0 <= i < os.elems().len() ==> K::src_valid(&#[trigger] os.elems()[i]))),
        <containers::OrderedSetSeq<K, Len, Dup, S> as RoundTrip<'de, C>>::needs_backing()
            == K::needs_backing(),
        <OrderedSet<K, S> as RoundTrip<'de, C>>::round_trips()
            == (K::round_trips() && (forall|a: K::Src, b: K::Src|
            #![trigger K::src_val(&a), K::src_val(&b)]
            K::src_val(&a) == K::src_val(&b) ==> a == b) && layout::size_of::<K::Src>()
                == layout::size_of::<K::Dst>()),
        <OrderedSet<K, S> as RoundTrip<'de, C>>::src_valid(&os)
            == (os.elems().len() <= usize::MAX && os.elems().no_duplicates()
            && (forall|i: int|
            0 <= i < os.elems().len() ==> K::src_valid(&#[trigger] os.elems()[i]))),
        <OrderedSet<K, S> as RoundTrip<'de, C>>::needs_backing() == K::needs_backing(),
{
}

/// A collection of any kind is written as a vector of its items.
pub proof fn law_any_collection_is_written_as_items<
    C: ConfigCore,
    Coll: WriteItems<C>,
    Len: SeqLen<C>,
>(coll: Coll::Written, v: Vec<<Coll::Item as SchemaWrite<C>>::Src>)
    requires
        v@ == Coll::items_of(&coll),
    ensures
        <containers::FromIntoIterator<Coll, Len> as SchemaWrite<C>>::emit(&coll)
            == <containers::Vec<Coll::Item, Len> as SchemaWrite<C>>::emit(&v),
        <containers::FromIntoIterator<Coll, Len> as SchemaWrite<C>>::size_err(&coll)
            == <containers::Vec<Coll::Item, Len> as SchemaWrite<C>>::size_err(&v),
        <containers::FromIntoIterator<Coll, Len> as SchemaWrite<C>>::src_val(&coll)
            == Coll::written_val(&coll),
        <containers::FromIntoIterator<Coll, Len> as SchemaWrite<C>>::write_lawful()
            == (<Coll::Item as SchemaWrite<C>>::write_lawful() && Coll::walk_ok()),
        <containers::FromIntoIterator<Coll, Len> as SchemaWrite<C>>::write_meta() is Dynamic,
{
}

/// A collection of any kind is read as a vector of its items, which are put in one after the other.
pub proof fn law_any_collection_is_read_as_items<
    'de,
    C: ConfigCore,
    Coll: ReadItems<'de, C>,
    Len: SeqLen<C>,
>(coll: Coll::Gathered, inp: Input)
    ensures
        <containers::FromIntoIterator<Coll, Len> as SchemaRead<'de, C>>::dec(inp)
            == match <containers::Vec<Coll::Item, Len> as SchemaRead<'de, C>>::dec(inp) {
            Ok((vals, rest)) => Ok::<(Coll::Val, Input), Fault>((Coll::val_of(vals), rest)),
            Err(f) => Err(f),
        },
        <containers::FromIntoIterator<Coll, Len> as SchemaRead<'de, C>>::dst_val(&coll)
            == Coll::gathered_val(&coll),
        <containers::FromIntoIterator<Coll, Len> as SchemaRead<'de, C>>::read_lawful()
            == (<Coll::Item as SchemaRead<'de, C>>::read_lawful()
            && Coll::gather_ok()),
        <containers::FromIntoIterator<Coll, Len> as SchemaRead<'de, C>>::read_meta() is Dynamic,
{
}

/// A collection of any kind comes back from reading if its items do.
pub proof fn law_any_collection_comes_back<
    'de,
    C: ConfigCore,
    Coll: RoundTripItems<'de, C>,
    Len: SeqLen<C>,
>(coll: Coll::Written)
    ensures
        <containers::FromIntoIterator<Coll, Len> as RoundTrip<'de, C>>::round_trips()
            == Coll::items_round_trip(),
        <containers::FromIntoIterator<Coll, Len> as RoundTrip<'de, C>>::src_valid(&coll)
            == Coll::items_valid(&coll),
        <containers::FromIntoIterator<Coll, Len> as RoundTrip<'de, C>>::needs_backing()
            == Coll::items_need_backing(),
{
}

/// The items of a sequence are its elements, in order, and of a heap what it holds.
pub proof fn law_items_of_sequences<C: ConfigCore, T: SchemaWrite<C> + Ranked>(
    v: Vec<T::Src>,
    d: VecDeque<T::Src>,
    l: LinkedList<T::Src>,
    h: MaxHeap<T::Src>,
) where T::Src: Ranked
    ensures
        <Vec<T> as WriteItems<C>>::items_of(&v) == v@,
        <Vec<T> as WriteItems<C>>::written_val(&v) == v@.map_values(|x: T::Src| T::src_val(&x)),
        <Vec<T> as WriteItems<C>>::walk_ok(),
        <VecDeque<T> as WriteItems<C>>::items_of(&d) == d@,
        <VecDeque<T> as WriteItems<C>>::written_val(&d)
            == d@.map_values(|x: T::Src| T::src_val(&x)),
        <VecDeque<T> as WriteItems<C>>::walk_ok(),
        <LinkedList<T> as WriteItems<C>>::items_of(&l) == l@,
        <LinkedList<T> as WriteItems<C>>::written_val(&l)
            == l@.map_values(|x: T::Src| T::src_val(&x)),
        <LinkedList<T> as WriteItems<C>>::walk_ok(),
        <MaxHeap<T> as WriteItems<C>>::items_of(&h) == h@,
        <MaxHeap<T> as WriteItems<C>>::written_val(&h)
            == h@.map_values(|x: T::Src| T::src_val(&x)).to_multiset(),
        <MaxHeap<T> as WriteItems<C>>::walk_ok(),
{
    assert(h@.map_values(|x: T::Src| T::src_val(&x)) =~= src_vals::<T, C>(h@));
}

/// What sequences and heaps are made of items stand for.
pub proof fn law_sequences_made_of_items<'de, C: ConfigCore, T: SchemaRead<'de, C> + Ranked>(
    vals: Seq<T::Val>,
    v: Vec<T::Dst>,
    d: VecDeque<T::Dst>,
    l: LinkedList<T::Dst>,
    h: MaxHeap<T::Dst>,
) where T::Dst: Ranked
    ensures
        <Vec<T> as ReadItems<'de, C>>::val_of(vals) == vals,
        <Vec<T> as ReadItems<'de, C>>::gathered_val(&v)
            == v@.map_values(|x: T::Dst| T::dst_val(&x)),
        <Vec<T> as ReadItems<'de, C>>::gather_ok(),
        <VecDeque<T> as ReadItems<'de, C>>::val_of(vals) == vals,
        <VecDeque<T> as ReadItems<'de, C>>::gathered_val(&d)
            == d@.map_values(|x: T::Dst| T::dst_val(&x)),
        <VecDeque<T> as ReadItems<'de, C>>::gather_ok(),
        <LinkedList<T> as ReadItems<'de, C>>::val_of(vals) == vals,
        <LinkedList<T> as ReadItems<'de, C>>::gathered_val(&l)
            == l@.map_values(|x: T::Dst| T::dst_val(&x)),
        <LinkedList<T> as ReadItems<'de, C>>::gather_ok(),
        <MaxHeap<T> as ReadItems<'de, C>>::val_of(vals) == vals.to_multiset(),
        <MaxHeap<T> as ReadItems<'de, C>>::gathered_val(&h)
            == h@.map_values(|x: T::Dst| T::dst_val(&x)).to_multiset(),
        <MaxHeap<T> as ReadItems<'de, C>>::gather_ok(),
{
    assert(h@.map_values(|x: T::Dst| T::dst_val(&x)) =~= dst_vals::<T, C>(h@));
}

/// The items of a set are its elements and those of a map its entries, in the order of a walk, or in
/// order if there is one.
pub proof fn law_items_of_keyed_collections<
    C: Config,
    K: SchemaWrite<C>,
    V: SchemaWrite<C>,
    S: BuildHasher + Default,
>(
    m: HashMap<K::Src, V::Src, S>,
    t: BTreeMap<K::Src, V::Src>,
    s: HashSet<K::Src, S>,
    u: BTreeSet<K::Src>,
    om: OrderedMap<K::Src, V::Src, S>,
    os: OrderedSet<K::Src, S>,
)
    ensures
        <HashMap<K, V, S> as WriteItems<C>>::items_of(&m) == hash_map_order(&m),
        <HashMap<K, V, S> as WriteItems<C>>::walk_ok() == hash_map_model::<K::Src, S>(),
        <HashMap<K, V, S> as WriteItems<C>>::written_val(&m)
            == <HashMap<K, V, S> as SchemaWrite<C>>::src_val(&m),
        <BTreeMap<K, V> as WriteItems<C>>::items_of(&t) == btree_map_order(&t),
        <BTreeMap<K, V> as WriteItems<C>>::walk_ok() == btree_map_model::<K::Src>(),
        <BTreeMap<K, V> as WriteItems<C>>::written_val(&t)
            == <BTreeMap<K, V> as SchemaWrite<C>>::src_val(&t),
        <HashSet<K, S> as WriteItems<C>>::items_of(&s) == hash_set_order(&s),
        <HashSet<K, S> as WriteItems<C>>::walk_ok() == hash_set_model::<K::Src, S>(),
        <HashSet<K, S> as WriteItems<C>>::written_val(&s)
            == <HashSet<K, S> as SchemaWrite<C>>::src_val(&s),
        <BTreeSet<K> as WriteItems<C>>::items_of(&u) == btree_set_order(&u),
        <BTreeSet<K> as WriteItems<C>>::walk_ok() == btree_set_model::<K::Src>(),
        <BTreeSet<K> as WriteItems<C>>::written_val(&u)
            == <BTreeSet<K> as SchemaWrite<C>>::src_val(&u),
        <OrderedMap<K, V, S> as WriteItems<C>>::items_of(&om) == om.entries(),
        <OrderedMap<K, V, S> as WriteItems<C>>::written_val(&om)
            == <OrderedMap<K, V, S> as SchemaWrite<C>>::src_val(&om),
        <OrderedSet<K, S> as WriteItems<C>>::items_of(&os) == os.elems(),
        <OrderedMap<K, V, S> as WriteItems<C>>::walk_ok(),
        <OrderedSet<K, S> as WriteItems<C>>::walk_ok(),
        <OrderedSet<K, S> as WriteItems<C>>::written_val(&os)
            == <OrderedSet<K, S> as SchemaWrite<C>>::src_val(&os),
{
}

/// What maps and sets are made of items stand for: of two entries with one key the last counts.
pub proof fn law_keyed_collections_made_of_items<
    'de,
    C: Config,
    K: SchemaRead<'de, C>,
    V: SchemaRead<'de, C>,
    S: BuildHasher + Default,
>(
    es: Seq<(K::Val, V::Val)>,
    ks: Seq<K::Val>,
    m: HashMap<K::Dst, V::Dst, S>,
    t: BTreeMap<K::Dst, V::Dst>,
    s: HashSet<K::Dst, S>,
    u: BTreeSet<K::Dst>,
    om: OrderedMap<K::Dst, V::Dst, S>,
    os: OrderedSet<K::Dst, S>,
) where K::Dst: Hash + Eq + Ord
    ensures
        <HashMap<K, V, S> as ReadItems<'de, C>>::val_of(es) == map_of(es),
        <HashMap<K, V, S> as ReadItems<'de, C>>::gathered_val(&m)
            == <HashMap<K, V, S> as SchemaRead<'de, C>>::dst_val(&m),
        <BTreeMap<K, V> as ReadItems<'de, C>>::val_of(es) == map_of(es),
        <BTreeMap<K, V> as ReadItems<'de, C>>::gathered_val(&t)
            == <BTreeMap<K, V> as SchemaRead<'de, C>>::dst_val(&t),
        <HashSet<K, S> as ReadItems<'de, C>>::val_of(ks) == ks.to_set(),
        <HashSet<K, S> as ReadItems<'de, C>>::gathered_val(&s)
            == <HashSet<K, S> as SchemaRead<'de, C>>::dst_val(&s),
        <BTreeSet<K> as ReadItems<'de, C>>::val_of(ks) == ks.to_set(),
        <BTreeSet<K> as ReadItems<'de, C>>::gathered_val(&u)
            == <BTreeSet<K> as SchemaRead<'de, C>>::dst_val(&u),
        <OrderedMap<K, V, S> as ReadItems<'de, C>>::val_of(es) == in_order(es),
        <OrderedMap<K, V, S> as ReadItems<'de, C>>::gathered_val(&om)
            == <OrderedMap<K, V, S> as SchemaRead<'de, C>>::dst_val(&om),
        <OrderedSet<K, S> as ReadItems<'de, C>>::val_of(ks) == set_in_order(ks),
        <OrderedSet<K, S> as ReadItems<'de, C>>::gathered_val(&os)
            == <OrderedSet<K, S> as SchemaRead<'de, C>>::dst_val(&os),
        <HashMap<K, V, S> as ReadItems<'de, C>>::gather_ok()
            == (hash_map_model::<K::Dst, S>() && (forall|a: K::Dst, b: K::Dst|
            #![trigger K::dst_val(&a), K::dst_val(&b)]
            K::dst_val(&a) == K::dst_val(&b) ==> a == b)),
        <BTreeMap<K, V> as ReadItems<'de, C>>::gather_ok()
            == (btree_map_model::<K::Dst>() && (forall|a: K::Dst, b: K::Dst|
            #![trigger K::dst_val(&a), K::dst_val(&b)]
            K::dst_val(&a) == K::dst_val(&b) ==> a == b)),
        <HashSet<K, S> as ReadItems<'de, C>>::gather_ok() == hash_set_model::<K::Dst, S>(),
        <BTreeSet<K> as ReadItems<'de, C>>::gather_ok() == btree_set_model::<K::Dst>(),
        <OrderedMap<K, V, S> as ReadItems<'de, C>>::gather_ok()
            == (index_model::<K::Dst, S>() && (forall|a: K::Dst, b: K::Dst|
            #![trigger K::dst_val(&a), K::dst_val(&b)]
            K::dst_val(&a) == K::dst_val(&b) ==> a == b)),
        <OrderedSet<K, S> as ReadItems<'de, C>>::gather_ok()
            == (index_model::<K::Dst, S>() && (forall|a: K::Dst, b: K::Dst|
            #![trigger K::dst_val(&a), K::dst_val(&b)]
            K::dst_val(&a) == K::dst_val(&b) ==> a == b)),
        index_model::<K::Dst, S>() == (hash::obeys_key_model::<K::Dst>()
            && hash::builds_valid_hashers::<S>()),
{
}

} // verus!
