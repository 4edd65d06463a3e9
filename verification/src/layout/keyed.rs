//! What the bytes of maps and sets are.
use crate::config::{Config, ConfigCore};
use crate::error::ReadError;
use crate::len::{prealloc_ok, prealloc_read_error, SeqLen};
use crate::model::{Fault, Input};
use crate::schema::containers;
use crate::schema::containers::decode::{dec_n, lemma_dec_n};
use crate::schema::containers::keyed::{
    elem_dec_n, has_key, kv_dec_n, lemma_elem_dec_n_err, lemma_kv_dec_n_err, map_of,
};
use crate::schema::containers::maps::{btree_map_model, btree_map_order, hash_map_order};
use crate::schema::containers::policy::{AllowDuplicateKeys, CheckUniqueKeys};
use crate::schema::containers::sets::{btree_set_model, btree_set_order, hash_set_order};
use crate::schema::containers::walked::lemma_pairs_are_a_sequence;
use crate::schema::containers::iter::law_iter_encodes_like_a_vector;
use crate::schema::context;
use crate::schema::external::ordered::{OrderedMap, OrderedSet};
use crate::schema::external::ordered_rules::{in_order, set_in_order};
use crate::schema::impls::tuple::pair_dec;
use crate::schema::{SchemaRead, SchemaReadContext, SchemaWrite, TypeMeta};
use core::hash::{BuildHasher, Hash};
use std::collections::{BTreeMap, BTreeSet, HashMap, HashSet};
use vstd::prelude::*;
use vstd::std_specs::hash;

verus! {

/// A map is written as a vector of its entries, each a key and then its value, in the order in which
/// a walk comes by them; an ordered one in its order.
pub proof fn law_maps_are_written_as_pairs<
    C: ConfigCore,
    K: SchemaWrite<C>,
    V: SchemaWrite<C>,
    Len: SeqLen<C>,
    Dup,
    S: BuildHasher + Default,
>(
    v: Vec<(K::Src, V::Src)>,
    m: HashMap<K::Src, V::Src, S>,
    t: BTreeMap<K::Src, V::Src>,
    o: OrderedMap<K::Src, V::Src, S>,
)
    ensures
        v@ == hash_map_order(&m) && v@.len() == m.len() ==> {
            &&& <containers::HashMap<K, V, Len, Dup, S> as SchemaWrite<C>>::emit(&m)
                == <containers::Vec<(K, V), Len> as SchemaWrite<C>>::emit(&v)
            &&& <containers::HashMap<K, V, Len, Dup, S> as SchemaWrite<C>>::size_err(&m)
                == <containers::Vec<(K, V), Len> as SchemaWrite<C>>::size_err(&v)
        },
        <containers::HashMap<K, V, Len, Dup, S> as SchemaWrite<C>>::write_lawful()
            == (K::write_lawful() && V::write_lawful() && hash::obeys_key_model::<K::Src>()
                && hash::builds_valid_hashers::<S>()),
        <containers::HashMap<K, V, Len, Dup, S> as SchemaWrite<C>>::write_meta() is Dynamic,
        v@ == btree_map_order(&t) && v@.len() == t.len() ==> {
            &&& <containers::BTreeMap<K, V, Len, Dup> as SchemaWrite<C>>::emit(&t)
                == <containers::Vec<(K, V), Len> as SchemaWrite<C>>::emit(&v)
            &&& <containers::BTreeMap<K, V, Len, Dup> as SchemaWrite<C>>::size_err(&t)
                == <containers::Vec<(K, V), Len> as SchemaWrite<C>>::size_err(&v)
        },
        <containers::BTreeMap<K, V, Len, Dup> as SchemaWrite<C>>::write_lawful()
            == (K::write_lawful() && V::write_lawful() && btree_map_model::<K::Src>()),
        <containers::BTreeMap<K, V, Len, Dup> as SchemaWrite<C>>::write_meta() is Dynamic,
        v@ == o.entries() ==> {
            &&& <containers::OrderedMapSeq<K, V, Len, Dup, S> as SchemaWrite<C>>::emit(&o)
                == <containers::Vec<(K, V), Len> as SchemaWrite<C>>::emit(&v)
            &&& <containers::OrderedMapSeq<K, V, Len, Dup, S> as SchemaWrite<C>>::size_err(&o)
                == <containers::Vec<(K, V), Len> as SchemaWrite<C>>::size_err(&v)
        },
        <containers::OrderedMapSeq<K, V, Len, Dup, S> as SchemaWrite<C>>::write_lawful()
            == (K::write_lawful() && V::write_lawful()),
        <containers::OrderedMapSeq<K, V, Len, Dup, S> as SchemaWrite<C>>::write_meta() is Dynamic,
{
    lemma_pairs_are_a_sequence::<K, V, Len, C>(v@);
}

/// A map without a length encoding of its own has that of the configuration.
pub proof fn law_plain_maps_are_written_as_pairs<
    C: Config,
    K: SchemaWrite<C>,
    V: SchemaWrite<C>,
    S: BuildHasher + Default,
>(
    v: Vec<(K::Src, V::Src)>,
    m: HashMap<K::Src, V::Src, S>,
    t: BTreeMap<K::Src, V::Src>,
    o: OrderedMap<K::Src, V::Src, S>,
)
    ensures
        v@ == hash_map_order(&m) && v@.len() == m.len() ==> {
            &&& <HashMap<K, V, S> as SchemaWrite<C>>::emit(&m)
                == <containers::Vec<(K, V), C::LengthEncoding> as SchemaWrite<C>>::emit(&v)
            &&& <HashMap<K, V, S> as SchemaWrite<C>>::size_err(&m)
                == <containers::Vec<(K, V), C::LengthEncoding> as SchemaWrite<C>>::size_err(&v)
        },
        <HashMap<K, V, S> as SchemaWrite<C>>::write_lawful()
            == (K::write_lawful() && V::write_lawful() && hash::obeys_key_model::<K::Src>()
                && hash::builds_valid_hashers::<S>()),
        <HashMap<K, V, S> as SchemaWrite<C>>::write_meta() is Dynamic,
        v@ == btree_map_order(&t) && v@.len() == t.len() ==> {
            &&& <BTreeMap<K, V> as SchemaWrite<C>>::emit(&t)
                == <containers::Vec<(K, V), C::LengthEncoding> as SchemaWrite<C>>::emit(&v)
            &&& <BTreeMap<K, V> as SchemaWrite<C>>::size_err(&t)
                == <containers::Vec<(K, V), C::LengthEncoding> as SchemaWrite<C>>::size_err(&v)
        },
        <BTreeMap<K, V> as SchemaWrite<C>>::write_lawful()
            == (K::write_lawful() && V::write_lawful() && btree_map_model::<K::Src>()),
        <BTreeMap<K, V> as SchemaWrite<C>>::write_meta() is Dynamic,
        v@ == o.entries() ==> {
            &&& <OrderedMap<K, V, S> as SchemaWrite<C>>::emit(&o)
                == <containers::Vec<(K, V), C::LengthEncoding> as SchemaWrite<C>>::emit(&v)
            &&& <OrderedMap<K, V, S> as SchemaWrite<C>>::size_err(&o)
                == <containers::Vec<(K, V), C::LengthEncoding> as SchemaWrite<C>>::size_err(&v)
        },
        <OrderedMap<K, V, S> as SchemaWrite<C>>::write_lawful()
            == (K::write_lawful() && V::write_lawful()),
        <OrderedMap<K, V, S> as SchemaWrite<C>>::write_meta() is Dynamic,
{
    lemma_pairs_are_a_sequence::<K, V, C::LengthEncoding, C>(v@);
}

/// A set is written as a vector of its elements, in the order in which a walk comes by them; an
/// ordered one in its order.
pub proof fn law_sets_are_written_as_elements<
    C: ConfigCore,
    K: SchemaWrite<C>,
    Len: SeqLen<C>,
    Dup,
    S: BuildHasher + Default,
>(
    v: Vec<K::Src>,
    s: HashSet<K::Src, S>,
    t: BTreeSet<K::Src>,
    o: OrderedSet<K::Src, S>,
)
    ensures
        v@ == hash_set_order(&s) && v@.len() == s.len() ==> {
            &&& <containers::HashSet<K, Len, Dup, S> as SchemaWrite<C>>::emit(&s)
                == <containers::Vec<K, Len> as SchemaWrite<C>>::emit(&v)
            &&& <containers::HashSet<K, Len, Dup, S> as SchemaWrite<C>>::size_err(&s)
                == <containers::Vec<K, Len> as SchemaWrite<C>>::size_err(&v)
        },
        <containers::HashSet<K, Len, Dup, S> as SchemaWrite<C>>::write_lawful()
            == (K::write_lawful() && hash::obeys_key_model::<K::Src>()
                && hash::builds_valid_hashers::<S>()),
        <containers::HashSet<K, Len, Dup, S> as SchemaWrite<C>>::write_meta() is Dynamic,
        v@ == btree_set_order(&t) && v@.len() == t.len() ==> {
            &&& <containers::BTreeSet<K, Len, Dup> as SchemaWrite<C>>::emit(&t)
                == <containers::Vec<K, Len> as SchemaWrite<C>>::emit(&v)
            &&& <containers::BTreeSet<K, Len, Dup> as SchemaWrite<C>>::size_err(&t)
                == <containers::Vec<K, Len> as SchemaWrite<C>>::size_err(&v)
        },
        <containers::BTreeSet<K, Len, Dup> as SchemaWrite<C>>::write_lawful()
            == (K::write_lawful() && btree_set_model::<K::Src>()),
        <containers::BTreeSet<K, Len, Dup> as SchemaWrite<C>>::write_meta() is Dynamic,
        v@ == o.elems() ==> {
            &&& <containers::OrderedSetSeq<K, Len, Dup, S> as SchemaWrite<C>>::emit(&o)
                == <containers::Vec<K, Len> as SchemaWrite<C>>::emit(&v)
            &&& <containers::OrderedSetSeq<K, Len, Dup, S> as SchemaWrite<C>>::size_err(&o)
                == <containers::Vec<K, Len> as SchemaWrite<C>>::size_err(&v)
        },
        <containers::OrderedSetSeq<K, Len, Dup, S> as SchemaWrite<C>>::write_lawful()
            == (K::write_lawful()),
        <containers::OrderedSetSeq<K, Len, Dup, S> as SchemaWrite<C>>::write_meta() is Dynamic,
{
    law_iter_encodes_like_a_vector::<K, Len, C>(v@);
}

/// A set without a length encoding of its own has that of the configuration.
pub proof fn law_plain_sets_are_written_as_elements<
    C: Config,
    K: SchemaWrite<C>,
    S: BuildHasher + Default,
>(
    v: Vec<K::Src>,
    s: HashSet<K::Src, S>,
    t: BTreeSet<K::Src>,
    o: OrderedSet<K::Src, S>,
)
    ensures
        v@ == hash_set_order(&s) && v@.len() == s.len() ==> {
            &&& <HashSet<K, S> as SchemaWrite<C>>::emit(&s)
                == <containers::Vec<K, C::LengthEncoding> as SchemaWrite<C>>::emit(&v)
            &&& <HashSet<K, S> as SchemaWrite<C>>::size_err(&s)
                == <containers::Vec<K, C::LengthEncoding> as SchemaWrite<C>>::size_err(&v)
        },
        <HashSet<K, S> as SchemaWrite<C>>::write_lawful()
            == (K::write_lawful() && hash::obeys_key_model::<K::Src>()
                && hash::builds_valid_hashers::<S>()),
        <HashSet<K, S> as SchemaWrite<C>>::write_meta() is Dynamic,
        v@ == btree_set_order(&t) && v@.len() == t.len() ==> {
            &&& <BTreeSet<K> as SchemaWrite<C>>::emit(&t)
                == <containers::Vec<K, C::LengthEncoding> as SchemaWrite<C>>::emit(&v)
            &&& <BTreeSet<K> as SchemaWrite<C>>::size_err(&t)
                == <containers::Vec<K, C::LengthEncoding> as SchemaWrite<C>>::size_err(&v)
        },
        <BTreeSet<K> as SchemaWrite<C>>::write_lawful()
            == (K::write_lawful() && btree_set_model::<K::Src>()),
        <BTreeSet<K> as SchemaWrite<C>>::write_meta() is Dynamic,
        v@ == o.elems() ==> {
            &&& <OrderedSet<K, S> as SchemaWrite<C>>::emit(&o)
                == <containers::Vec<K, C::LengthEncoding> as SchemaWrite<C>>::emit(&v)
            &&& <OrderedSet<K, S> as SchemaWrite<C>>::size_err(&o)
                == <containers::Vec<K, C::LengthEncoding> as SchemaWrite<C>>::size_err(&v)
        },
        <OrderedSet<K, S> as SchemaWrite<C>>::write_lawful() == (K::write_lawful()),
        <OrderedSet<K, S> as SchemaWrite<C>>::write_meta() is Dynamic,
{
    law_iter_encodes_like_a_vector::<K, C::LengthEncoding, C>(v@);
}

/// Entries are read as pairs are.
proof fn lemma_entries_are_pairs<
    'de,
    C: ConfigCore,
    K: SchemaRead<'de, C>,
    V: SchemaRead<'de, C>,
>(n: nat, inp: Input)
    requires
        <(K, V) as SchemaRead<'de, C>>::read_meta() matches TypeMeta::Static { size, .. }
            ==> n * size
            <= inp.bytes.len(),
    ensures
        kv_dec_n::<K, V, AllowDuplicateKeys, C>(n, inp) == dec_n::<(K, V), C>(n, inp),
    decreases n,
{
    if n > 0 {
        let m = (n - 1) as nat;
        if let TypeMeta::Static { size, .. } = <(K, V) as SchemaRead<'de, C>>::read_meta() {
            assert(n * size == m * size + size) by (nonlinear_arith)
                requires
                    n == m + 1,
            ;
            assert(m * size <= n * size) by (nonlinear_arith)
                requires
                    n == m + 1,
            ;
        }
        lemma_entries_are_pairs::<C, K, V>(m, inp);
        lemma_dec_n::<(K, V), C>(m, inp);
    }
}

/// Entries with distinct keys are read alike whether or not repeated keys are refused, and a
/// repeated key is an error behind the entry that repeats it.
proof fn lemma_entries_are_told_apart<
    'de,
    C: ConfigCore,
    K: SchemaRead<'de, C>,
    V: SchemaRead<'de, C>,
>(n: nat, inp: Input)
    ensures
        kv_dec_n::<K, V, AllowDuplicateKeys, C>(n, inp) matches Ok((es, left)) ==> {
            &&& (forall|i: int, j: int|
                0 <= i < j < n ==> (#[trigger] es[i]).0 != (#[trigger] es[j]).0) ==> kv_dec_n::<
                K,
                V,
                CheckUniqueKeys,
                C,
            >(n, inp) == Ok::<(Seq<(K::Val, V::Val)>, Input), Fault>((es, left))
            &&& n > 0 && (forall|i: int, j: int|
                0 <= i < j < n - 1 ==> (#[trigger] es[i]).0 != (#[trigger] es[j]).0) && (exists|
                i: int,
            |
                0 <= i < n - 1 && (#[trigger] es[i]).0 == es[n - 1].0) ==> kv_dec_n::<
                K,
                V,
                CheckUniqueKeys,
                C,
            >(n, inp) == Err::<(Seq<(K::Val, V::Val)>, Input), Fault>(
                (Fault {
                    err: ReadError::Custom("duplicate key in keyed collection"),
                    left,
                }),
            )
        },
        kv_dec_n::<K, V, AllowDuplicateKeys, C>(n, inp) matches Ok((es, left)) ==> es.len() == n,
    decreases n,
{
    if n > 0 {
        let m = (n - 1) as nat;
        lemma_entries_are_told_apart::<C, K, V>(m, inp);
        if let Ok((es, left)) = kv_dec_n::<K, V, AllowDuplicateKeys, C>(n, inp) {
            let (before, mid) = kv_dec_n::<K, V, AllowDuplicateKeys, C>(m, inp)->Ok_0;
            let e = es[m as int];
            assert(es =~= before.push(e));
            assert(forall|i: int| 0 <= i < m ==> #[trigger] before[i] == es[i]);
            if forall|i: int, j: int|
                0 <= i < j < m ==> (#[trigger] es[i]).0 != (#[trigger] es[j]).0 {
                assert forall|i: int, j: int| 0 <= i < j < m implies (#[trigger] before[i]).0 != (
                #[trigger] before[j]).0 by {
                    assert(es[i].0 != es[j].0);
                }
            }
            assert(has_key(before, e.0) <==> exists|i: int| 0 <= i < m && (#[trigger] es[i]).0
                == e.0)
                by {
                if has_key(before, e.0) {
                    let i = choose|i: int| 0 <= i < before.len() && (#[trigger] before[i]).0 == e.0;
                    assert(es[i].0 == e.0);
                }
                if exists|i: int| 0 <= i < m && (#[trigger] es[i]).0 == e.0 {
                    let i = choose|i: int| 0 <= i < m && (#[trigger] es[i]).0 == e.0;
                    assert(before[i].0 == e.0);
                }
            }
        }
    }
}

/// A map is read as a vector of pairs, which are put in one after the other. Left out are entries
/// that would take more bytes each than there are numbers for.
pub proof fn law_maps_are_read_as_pairs<
    'de,
    C: ConfigCore,
    K: SchemaRead<'de, C>,
    V: SchemaRead<'de, C>,
    Len: SeqLen<C>,
    S: BuildHasher + Default,
>(inp: Input) where K::Dst: Hash + Eq + Ord
    requires
        <(K, V) as SchemaRead<'de, C>>::read_meta() is Dynamic ==> K::read_meta() is Dynamic
            || V::read_meta() is Dynamic,
    ensures
        <containers::HashMap<K, V, Len, AllowDuplicateKeys, S> as SchemaRead<'de, C>>::dec(inp)
            == match <containers::Vec<(K, V), Len> as SchemaRead<'de, C>>::dec(inp) {
            Ok((es, rest)) => Ok::<(Map<K::Val, V::Val>, Input), Fault>((map_of(es), rest)),
            Err(f) => Err(f),
        },
        <containers::BTreeMap<K, V, Len, AllowDuplicateKeys> as SchemaRead<'de, C>>::dec(inp)
            == match <containers::Vec<(K, V), Len> as SchemaRead<'de, C>>::dec(inp) {
            Ok((es, rest)) => Ok::<(Map<K::Val, V::Val>, Input), Fault>((map_of(es), rest)),
            Err(f) => Err(f),
        },
        <containers::OrderedMapSeq<K, V, Len, AllowDuplicateKeys, S> as SchemaRead<'de, C>>::dec(
            inp) == match <containers::Vec<(K, V), Len> as SchemaRead<'de, C>>::dec(inp) {
            Ok((es, rest)) => Ok::<(Seq<(K::Val, V::Val)>, Input), Fault>((in_order(es), rest)),
            Err(f) => Err(f),
        },
        <containers::HashMap<K, V, Len, AllowDuplicateKeys, S> as SchemaRead<'de, C>>::read_lawful()
            == (K::read_lawful() && V::read_lawful() && (forall|a: K::Dst, b: K::Dst|
            #![trigger K::dst_val(&a), K::dst_val(&b)]
            K::dst_val(&a) == K::dst_val(&b) ==> a == b) && hash::obeys_key_model::<K::Dst>()
                && hash::builds_valid_hashers::<S>()),
        <containers::HashMap<K, V, Len, AllowDuplicateKeys, S> as SchemaRead<'de,
            C>>::read_meta() is Dynamic,
        <containers::BTreeMap<K, V, Len, AllowDuplicateKeys> as SchemaRead<'de, C>>::read_lawful()
            == (K::read_lawful() && V::read_lawful() && (forall|a: K::Dst, b: K::Dst|
            #![trigger K::dst_val(&a), K::dst_val(&b)]
            K::dst_val(&a) == K::dst_val(&b) ==> a == b) && btree_map_model::<K::Dst>()),
        <containers::BTreeMap<K, V, Len, AllowDuplicateKeys> as SchemaRead<'de,
            C>>::read_meta() is Dynamic,
        <containers::OrderedMapSeq<K, V, Len, AllowDuplicateKeys, S> as SchemaRead<'de,
            C>>::read_lawful()
                == (K::read_lawful() && V::read_lawful() && (forall|a: K::Dst, b: K::Dst|
            #![trigger K::dst_val(&a), K::dst_val(&b)]
            K::dst_val(&a) == K::dst_val(&b) ==> a == b) && hash::obeys_key_model::<K::Dst>()
                && hash::builds_valid_hashers::<S>()),
        <containers::OrderedMapSeq<K, V, Len, AllowDuplicateKeys, S> as SchemaRead<'de,
            C>>::read_meta() is Dynamic,
        <containers::HashMap<K, V, Len, CheckUniqueKeys, S> as SchemaRead<'de, C>>::read_lawful()
            == (K::read_lawful() && V::read_lawful() && (forall|a: K::Dst, b: K::Dst|
            #![trigger K::dst_val(&a), K::dst_val(&b)]
            K::dst_val(&a) == K::dst_val(&b) ==> a == b) && hash::obeys_key_model::<K::Dst>()
                && hash::builds_valid_hashers::<S>()),
        <containers::HashMap<K, V, Len, CheckUniqueKeys, S> as SchemaRead<'de,
            C>>::read_meta() is Dynamic,
        <containers::BTreeMap<K, V, Len, CheckUniqueKeys> as SchemaRead<'de, C>>::read_lawful()
            == (K::read_lawful() && V::read_lawful() && (forall|a: K::Dst, b: K::Dst|
            #![trigger K::dst_val(&a), K::dst_val(&b)]
            K::dst_val(&a) == K::dst_val(&b) ==> a == b) && btree_map_model::<K::Dst>()),
        <containers::BTreeMap<K, V, Len, CheckUniqueKeys> as SchemaRead<'de,
            C>>::read_meta() is Dynamic,
        <containers::OrderedMapSeq<K, V, Len, CheckUniqueKeys, S> as SchemaRead<'de,
            C>>::read_lawful()
                == (K::read_lawful() && V::read_lawful() && (forall|a: K::Dst, b: K::Dst|
            #![trigger K::dst_val(&a), K::dst_val(&b)]
            K::dst_val(&a) == K::dst_val(&b) ==> a == b) && hash::obeys_key_model::<K::Dst>()
                && hash::builds_valid_hashers::<S>()),
        <containers::OrderedMapSeq<K, V, Len, CheckUniqueKeys, S> as SchemaRead<'de,
            C>>::read_meta() is Dynamic,
{
    Len::lemma_len_dec(inp);
    if let Ok((n, mid)) = Len::len_dec(inp) {
        if let TypeMeta::Static { size, .. } = <(K, V) as SchemaRead<'de, C>>::read_meta() {
            if n * size <= mid.bytes.len() {
                lemma_entries_are_pairs::<C, K, V>(n, mid);
            }
        } else {
            lemma_entries_are_pairs::<C, K, V>(n, mid);
        }
    }
}

/// Where repeated keys are refused, a map is read up to the first entry that repeats a key, or that
/// cannot be read.
pub proof fn law_maps_with_unique_keys<
    'de,
    C: ConfigCore,
    K: SchemaRead<'de, C>,
    V: SchemaRead<'de, C>,
    Len: SeqLen<C>,
    S: BuildHasher + Default,
>(inp: Input, n: nat, mid: Input, es: Seq<(K::Val, V::Val)>, left: Input) where K::Dst: Hash + Eq
    + Ord
    requires
        <(K, V) as SchemaRead<'de, C>>::read_meta() is Dynamic ==> K::read_meta() is Dynamic
            || V::read_meta() is Dynamic,
        Len::len_dec(inp) == Ok::<(nat, Input), Fault>((n, mid)),
        prealloc_ok::<C, (K::Dst, V::Dst)>(n),
        <(K, V) as SchemaRead<'de, C>>::read_meta() matches TypeMeta::Static { size, .. }
            ==> n * size <= usize::MAX && n
            * size <= mid.bytes.len(),
        es.len() <= n,
        <Vec<(K, V)> as SchemaReadContext<'de, C, context::Len>>::context_dec(
            context::Len(es.len() as usize), mid) == Ok::<(Seq<(K::Val, V::Val)>, Input), Fault>(
            (es, left),
        ),
    ensures
        es.len() == n && (forall|i: int, j: int|
            0 <= i < j < es.len() ==> (#[trigger] es[i]).0 != (#[trigger] es[j]).0)
                ==> <containers::HashMap<K, V, Len, CheckUniqueKeys, S> as SchemaRead<'de,
                    C>>::dec(inp)
            == Ok::<(Map<K::Val, V::Val>, Input), Fault>((map_of(es), left)),
        0 < es.len() && (forall|i: int, j: int|
            0 <= i < j < es.len() - 1 ==> (#[trigger] es[i]).0 != (#[trigger] es[j]).0) && (exists|
            i: int,
        |
            0 <= i < es.len() - 1 && (#[trigger] es[i]).0 == es.last().0)
                ==> <containers::HashMap<K, V, Len, CheckUniqueKeys, S> as SchemaRead<'de,
                    C>>::dec(inp) == Err::<
            (Map<K::Val, V::Val>, Input),
            Fault,
        >(
            (Fault { err: ReadError::Custom("duplicate key in keyed collection"), left }),
        ),
        es.len() < n && (forall|i: int, j: int|
            0 <= i < j < es.len() ==> (#[trigger] es[i]).0 != (#[trigger] es[j]).0)
                && <(K, V) as SchemaRead<
            'de,
            C,
        >>::dec(left) is Err
            ==> <containers::HashMap<K, V, Len, CheckUniqueKeys, S> as SchemaRead<'de, C>>::dec(inp)
                == Err::<(Map<K::Val, V::Val>, Input), Fault>(
            <(K, V) as SchemaRead<'de, C>>::dec(left)->Err_0,
        ),
        es.len() == n && (forall|i: int, j: int|
            0 <= i < j < es.len() ==> (#[trigger] es[i]).0 != (#[trigger] es[j]).0)
                ==> <containers::BTreeMap<K, V, Len, CheckUniqueKeys> as SchemaRead<'de, C>>::dec(
                    inp)
            == Ok::<(Map<K::Val, V::Val>, Input), Fault>((map_of(es), left)),
        0 < es.len() && (forall|i: int, j: int|
            0 <= i < j < es.len() - 1 ==> (#[trigger] es[i]).0 != (#[trigger] es[j]).0) && (exists|
            i: int,
        |
            0 <= i < es.len() - 1 && (#[trigger] es[i]).0 == es.last().0)
                ==> <containers::BTreeMap<K, V, Len, CheckUniqueKeys> as SchemaRead<'de, C>>::dec(
                    inp) == Err::<
            (Map<K::Val, V::Val>, Input),
            Fault,
        >(
            (Fault { err: ReadError::Custom("duplicate key in keyed collection"), left }),
        ),
        es.len() < n && (forall|i: int, j: int|
            0 <= i < j < es.len() ==> (#[trigger] es[i]).0 != (#[trigger] es[j]).0)
                && <(K, V) as SchemaRead<
            'de,
            C,
        >>::dec(left) is Err
            ==> <containers::BTreeMap<K, V, Len, CheckUniqueKeys> as SchemaRead<'de, C>>::dec(inp)
                == Err::<(Map<K::Val, V::Val>, Input), Fault>(
            <(K, V) as SchemaRead<'de, C>>::dec(left)->Err_0,
        ),
        es.len() == n && (forall|i: int, j: int|
            0 <= i < j < es.len() ==> (#[trigger] es[i]).0 != (#[trigger] es[j]).0)
                ==> <containers::OrderedMapSeq<K, V, Len, CheckUniqueKeys, S> as SchemaRead<'de,
                    C>>::dec(inp)
            == Ok::<(Seq<(K::Val, V::Val)>, Input), Fault>((in_order(es), left)),
        0 < es.len() && (forall|i: int, j: int|
            0 <= i < j < es.len() - 1 ==> (#[trigger] es[i]).0 != (#[trigger] es[j]).0) && (exists|
            i: int,
        |
            0 <= i < es.len() - 1 && (#[trigger] es[i]).0 == es.last().0)
                ==> <containers::OrderedMapSeq<K, V, Len, CheckUniqueKeys, S> as SchemaRead<'de,
                    C>>::dec(inp) == Err::<
            (Seq<(K::Val, V::Val)>, Input),
            Fault,
        >(
            (Fault { err: ReadError::Custom("duplicate key in keyed collection"), left }),
        ),
        es.len() < n && (forall|i: int, j: int|
            0 <= i < j < es.len() ==> (#[trigger] es[i]).0 != (#[trigger] es[j]).0)
                && <(K, V) as SchemaRead<
            'de,
            C,
        >>::dec(left) is Err
            ==> <containers::OrderedMapSeq<K, V, Len, CheckUniqueKeys, S> as SchemaRead<'de,
                C>>::dec(inp) == Err::<(Seq<(K::Val, V::Val)>, Input), Fault>(
            <(K, V) as SchemaRead<'de, C>>::dec(left)->Err_0,
        ),
{
    let k = es.len();
    Len::lemma_len_dec(inp);
    if let TypeMeta::Static { size, .. } = <(K, V) as SchemaRead<'de, C>>::read_meta() {
        assert(k * size <= n * size) by (nonlinear_arith)
            requires
                k <= n,
        ;
        if k < n {
            assert((k + 1) * size <= n * size) by (nonlinear_arith)
                requires
                    k + 1 <= n,
            ;
            assert((k + 1) * size == k * size + size) by (nonlinear_arith);
        }
        lemma_dec_n::<(K, V), C>(k, mid);
    }
    lemma_entries_are_pairs::<C, K, V>(k, mid);
    lemma_entries_are_told_apart::<C, K, V>(k, mid);
    lemma_kv_dec_n_err::<K, V, CheckUniqueKeys, C>(k, n, mid);
    if k < n {
        lemma_kv_dec_n_err::<K, V, CheckUniqueKeys, C>(k + 1, n, mid);
        assert(<(K, V) as SchemaRead<'de, C>>::dec(left) == pair_dec::<K, V, C>(left));
    }
}

/// Where repeated keys are refused, a map that cannot be there is refused as it is elsewhere.
pub proof fn law_maps_with_unique_keys_need_their_bytes<
    'de,
    C: ConfigCore,
    K: SchemaRead<'de, C>,
    V: SchemaRead<'de, C>,
    Len: SeqLen<C>,
    S: BuildHasher + Default,
>(inp: Input, n: nat, mid: Input, size: nat) where K::Dst: Hash + Eq + Ord
    requires
        Len::len_dec(inp) == Ok::<(nat, Input), Fault>((n, mid)),
        <(K, V) as SchemaRead<'de, C>>::read_meta() matches TypeMeta::Static { size: s, .. } && s
            == size,
    ensures
        !prealloc_ok::<C, (K::Dst, V::Dst)>(n)
            ==> <containers::HashMap<K, V, Len, CheckUniqueKeys, S> as SchemaRead<'de, C>>::dec(inp)
                == Err::<(Map<K::Val, V::Val>, Input), Fault>(
            (Fault { err: prealloc_read_error::<C, (K::Dst, V::Dst)>(n), left: mid }),
        ),
        prealloc_ok::<C, (K::Dst, V::Dst)>(n) && n * size > usize::MAX
            ==> <containers::HashMap<K, V, Len, CheckUniqueKeys, S> as SchemaRead<'de, C>>::dec(inp)
                == Err::<
            (Map<K::Val, V::Val>, Input),
            Fault,
        >((Fault { err: ReadError::LengthEncodingOverflow("usize::MAX"), left: mid })),
        prealloc_ok::<C, (K::Dst, V::Dst)>(n) && mid.bytes.len() < n * size <= usize::MAX
            ==> <containers::HashMap<K, V, Len, CheckUniqueKeys, S> as SchemaRead<'de, C>>::dec(inp)
                == Err::<
            (Map<K::Val, V::Val>, Input),
            Fault,
        >(
            (Fault {
                err: ReadError::Io(crate::io::ReadError::ReadSizeLimit((n * size) as usize)),
                left: mid,
            }),
        ),
        !prealloc_ok::<C, (K::Dst, V::Dst)>(n)
            ==> <containers::BTreeMap<K, V, Len, CheckUniqueKeys> as SchemaRead<'de, C>>::dec(inp)
                == Err::<(Map<K::Val, V::Val>, Input), Fault>(
            (Fault { err: prealloc_read_error::<C, (K::Dst, V::Dst)>(n), left: mid }),
        ),
        prealloc_ok::<C, (K::Dst, V::Dst)>(n) && n * size > usize::MAX
            ==> <containers::BTreeMap<K, V, Len, CheckUniqueKeys> as SchemaRead<'de, C>>::dec(inp)
                == Err::<
            (Map<K::Val, V::Val>, Input),
            Fault,
        >((Fault { err: ReadError::LengthEncodingOverflow("usize::MAX"), left: mid })),
        prealloc_ok::<C, (K::Dst, V::Dst)>(n) && mid.bytes.len() < n * size <= usize::MAX
            ==> <containers::BTreeMap<K, V, Len, CheckUniqueKeys> as SchemaRead<'de, C>>::dec(inp)
                == Err::<
            (Map<K::Val, V::Val>, Input),
            Fault,
        >(
            (Fault {
                err: ReadError::Io(crate::io::ReadError::ReadSizeLimit((n * size) as usize)),
                left: mid,
            }),
        ),
        !prealloc_ok::<C, (K::Dst, V::Dst)>(n)
            ==> <containers::OrderedMapSeq<K, V, Len, CheckUniqueKeys, S> as SchemaRead<'de,
                C>>::dec(inp) == Err::<(Seq<(K::Val, V::Val)>, Input), Fault>(
            (Fault { err: prealloc_read_error::<C, (K::Dst, V::Dst)>(n), left: mid }),
        ),
        prealloc_ok::<C, (K::Dst, V::Dst)>(n) && n * size > usize::MAX
            ==> <containers::OrderedMapSeq<K, V, Len, CheckUniqueKeys, S> as SchemaRead<'de,
                C>>::dec(inp) == Err::<
            (Seq<(K::Val, V::Val)>, Input),
            Fault,
        >((Fault { err: ReadError::LengthEncodingOverflow("usize::MAX"), left: mid })),
        prealloc_ok::<C, (K::Dst, V::Dst)>(n) && mid.bytes.len() < n * size <= usize::MAX
            ==> <containers::OrderedMapSeq<K, V, Len, CheckUniqueKeys, S> as SchemaRead<'de,
                C>>::dec(inp) == Err::<
            (Seq<(K::Val, V::Val)>, Input),
            Fault,
        >(
            (Fault {
                err: ReadError::Io(crate::io::ReadError::ReadSizeLimit((n * size) as usize)),
                left: mid,
            }),
        ),
{
    Len::lemma_len_dec(inp);
}

/// A map without a length encoding of its own has that of the configuration, and repeated keys are
/// allowed in it.
pub proof fn law_plain_maps_are_read_alike<
    'de,
    C: Config,
    K: SchemaRead<'de, C>,
    V: SchemaRead<'de, C>,
    S: BuildHasher + Default,
>(inp: Input) where K::Dst: Hash + Eq + Ord
    ensures
        <HashMap<K, V, S> as SchemaRead<'de, C>>::dec(inp)
            == <containers::HashMap<K, V, C::LengthEncoding, AllowDuplicateKeys,
                S> as SchemaRead<'de, C>>::dec(inp),
        <HashMap<K, V, S> as SchemaRead<'de, C>>::read_lawful()
            == <containers::HashMap<K, V, C::LengthEncoding, AllowDuplicateKeys,
                S> as SchemaRead<'de, C>>::read_lawful(),
        <HashMap<K, V, S> as SchemaRead<'de, C>>::read_meta() is Dynamic,
        <BTreeMap<K, V> as SchemaRead<'de, C>>::dec(inp)
            == <containers::BTreeMap<K, V, C::LengthEncoding,
                AllowDuplicateKeys> as SchemaRead<'de, C>>::dec(inp),
        <BTreeMap<K, V> as SchemaRead<'de, C>>::read_lawful()
            == <containers::BTreeMap<K, V, C::LengthEncoding,
                AllowDuplicateKeys> as SchemaRead<'de, C>>::read_lawful(),
        <BTreeMap<K, V> as SchemaRead<'de, C>>::read_meta() is Dynamic,
        <OrderedMap<K, V, S> as SchemaRead<'de, C>>::dec(inp)
            == <containers::OrderedMapSeq<K, V, C::LengthEncoding, AllowDuplicateKeys,
                S> as SchemaRead<'de, C>>::dec(inp),
        <OrderedMap<K, V, S> as SchemaRead<'de, C>>::read_lawful()
            == <containers::OrderedMapSeq<K, V, C::LengthEncoding, AllowDuplicateKeys,
                S> as SchemaRead<'de, C>>::read_lawful(),
        <OrderedMap<K, V, S> as SchemaRead<'de, C>>::read_meta() is Dynamic,
{
}

/// Elements of a set are read as those of a sequence are.
proof fn lemma_elements_are_read<'de, C: ConfigCore, K: SchemaRead<'de, C>>(n: nat, inp: Input)
    ensures
        elem_dec_n::<K, AllowDuplicateKeys, C>(n, inp) == dec_n::<K, C>(n, inp),
    decreases n,
{
    if n > 0 {
        lemma_elements_are_read::<C, K>((n - 1) as nat, inp);
    }
}

/// As [`lemma_entries_are_told_apart`], for the elements of a set.
proof fn lemma_elements_are_told_apart<'de, C: ConfigCore, K: SchemaRead<'de, C>>(n: nat,
    inp: Input)
    ensures
        dec_n::<K, C>(n, inp) matches Ok((ks, left)) ==> {
            &&& ks.len() == n
            &&& ks.no_duplicates() ==> elem_dec_n::<K, CheckUniqueKeys, C>(n, inp) == Ok::<
                (Seq<K::Val>, Input),
                Fault,
            >((ks, left))
            &&& n > 0 && ks.drop_last().no_duplicates() && ks.drop_last().contains(ks.last())
                ==> elem_dec_n::<K, CheckUniqueKeys, C>(n, inp) == Err::<
                (Seq<K::Val>, Input),
                Fault,
            >(
                (Fault { err: ReadError::Custom("duplicate key in keyed collection"), left }),
            )
        },
    decreases n,
{
    if n > 0 {
        let m = (n - 1) as nat;
        lemma_elements_are_told_apart::<C, K>(m, inp);
        if let Ok((ks, left)) = dec_n::<K, C>(n, inp) {
            let (before, mid) = dec_n::<K, C>(m, inp)->Ok_0;
            assert(before =~= ks.drop_last());
            if ks.no_duplicates() {
                assert forall|i: int, j: int|
                    0 <= i < before.len() && 0 <= j < before.len() && i != j implies before[i]
                    != before[j] by {
                    assert(ks[i] != ks[j]);
                }
                if before.contains(ks.last()) {
                    let i = before.index_of(ks.last());
                    assert(ks[i] != ks[m as int]);
                }
            }
        }
    }
}

/// A set is read as a vector of elements, which are put in one after the other.
pub proof fn law_sets_are_read_as_elements<
    'de,
    C: ConfigCore,
    K: SchemaRead<'de, C>,
    Len: SeqLen<C>,
    S: BuildHasher + Default,
>(inp: Input) where K::Dst: Hash + Eq + Ord
    ensures
        <containers::HashSet<K, Len, AllowDuplicateKeys, S> as SchemaRead<'de, C>>::dec(inp)
            == match <containers::Vec<K, Len> as SchemaRead<'de, C>>::dec(inp) {
            Ok((es, rest)) => Ok::<(Set<K::Val>, Input), Fault>((es.to_set(), rest)),
            Err(f) => Err(f),
        },
        <containers::BTreeSet<K, Len, AllowDuplicateKeys> as SchemaRead<'de, C>>::dec(inp)
            == match <containers::Vec<K, Len> as SchemaRead<'de, C>>::dec(inp) {
            Ok((es, rest)) => Ok::<(Set<K::Val>, Input), Fault>((es.to_set(), rest)),
            Err(f) => Err(f),
        },
        <containers::OrderedSetSeq<K, Len, AllowDuplicateKeys, S> as SchemaRead<'de, C>>::dec(inp)
            == match <containers::Vec<K, Len> as SchemaRead<'de, C>>::dec(inp) {
            Ok((es, rest)) => Ok::<(Seq<K::Val>, Input), Fault>((set_in_order(es), rest)),
            Err(f) => Err(f),
        },
        <containers::HashSet<K, Len, AllowDuplicateKeys, S> as SchemaRead<'de, C>>::read_lawful()
            == (K::read_lawful() && (forall|a: K::Dst, b: K::Dst|
            #![trigger K::dst_val(&a), K::dst_val(&b)]
            K::dst_val(&a) == K::dst_val(&b) ==> a == b) && hash::obeys_key_model::<K::Dst>()
                && hash::builds_valid_hashers::<S>()),
        <containers::HashSet<K, Len, AllowDuplicateKeys, S> as SchemaRead<'de,
            C>>::read_meta() is Dynamic,
        <containers::BTreeSet<K, Len, AllowDuplicateKeys> as SchemaRead<'de, C>>::read_lawful()
            == (K::read_lawful() && (forall|a: K::Dst, b: K::Dst|
            #![trigger K::dst_val(&a), K::dst_val(&b)]
            K::dst_val(&a) == K::dst_val(&b) ==> a == b) && btree_set_model::<K::Dst>()),
        <containers::BTreeSet<K, Len, AllowDuplicateKeys> as SchemaRead<'de,
            C>>::read_meta() is Dynamic,
        <containers::OrderedSetSeq<K, Len, AllowDuplicateKeys, S> as SchemaRead<'de,
            C>>::read_lawful() == (K::read_lawful() && (forall|a: K::Dst, b: K::Dst|
            #![trigger K::dst_val(&a), K::dst_val(&b)]
            K::dst_val(&a) == K::dst_val(&b) ==> a == b) && hash::obeys_key_model::<K::Dst>()
                && hash::builds_valid_hashers::<S>()),
        <containers::OrderedSetSeq<K, Len, AllowDuplicateKeys, S> as SchemaRead<'de,
            C>>::read_meta() is Dynamic,
        <containers::HashSet<K, Len, CheckUniqueKeys, S> as SchemaRead<'de, C>>::read_lawful()
            == (K::read_lawful() && (forall|a: K::Dst, b: K::Dst|
            #![trigger K::dst_val(&a), K::dst_val(&b)]
            K::dst_val(&a) == K::dst_val(&b) ==> a == b) && hash::obeys_key_model::<K::Dst>()
                && hash::builds_valid_hashers::<S>()),
        <containers::HashSet<K, Len, CheckUniqueKeys, S> as SchemaRead<'de,
            C>>::read_meta() is Dynamic,
        <containers::BTreeSet<K, Len, CheckUniqueKeys> as SchemaRead<'de, C>>::read_lawful()
            == (K::read_lawful() && (forall|a: K::Dst, b: K::Dst|
            #![trigger K::dst_val(&a), K::dst_val(&b)]
            K::dst_val(&a) == K::dst_val(&b) ==> a == b) && btree_set_model::<K::Dst>()),
        <containers::BTreeSet<K, Len, CheckUniqueKeys> as SchemaRead<'de,
            C>>::read_meta() is Dynamic,
        <containers::OrderedSetSeq<K, Len, CheckUniqueKeys, S> as SchemaRead<'de, C>>::read_lawful()
            == (K::read_lawful() && (forall|a: K::Dst, b: K::Dst|
            #![trigger K::dst_val(&a), K::dst_val(&b)]
            K::dst_val(&a) == K::dst_val(&b) ==> a == b) && hash::obeys_key_model::<K::Dst>()
                && hash::builds_valid_hashers::<S>()),
        <containers::OrderedSetSeq<K, Len, CheckUniqueKeys, S> as SchemaRead<'de,
            C>>::read_meta() is Dynamic,
{
    Len::lemma_len_dec(inp);
    if let Ok((n, mid)) = Len::len_dec(inp) {
        lemma_elements_are_read::<C, K>(n, mid);
    }
}

/// Where repeated elements are refused, a set is read up to the first element that was there before,
/// or that cannot be read.
pub proof fn law_sets_with_unique_elements<
    'de,
    C: ConfigCore,
    K: SchemaRead<'de, C>,
    Len: SeqLen<C>,
    S: BuildHasher + Default,
>(inp: Input, n: nat, mid: Input, ks: Seq<K::Val>, left: Input) where K::Dst: Hash + Eq + Ord
    requires
        Len::len_dec(inp) == Ok::<(nat, Input), Fault>((n, mid)),
        prealloc_ok::<C, K::Dst>(n),
        K::read_meta() matches TypeMeta::Static { size, .. } ==> n * size <= usize::MAX && n
            * size <= mid.bytes.len(),
        ks.len() <= n,
        <Vec<K> as SchemaReadContext<'de, C, context::Len>>::context_dec(
            context::Len(ks.len() as usize), mid) == Ok::<(Seq<K::Val>, Input), Fault>(
            (ks, left),
        ),
    ensures
        ks.len() == n && ks.no_duplicates()
            ==> <containers::HashSet<K, Len, CheckUniqueKeys, S> as SchemaRead<'de, C>>::dec(inp)
                == Ok::<(Set<K::Val>, Input), Fault>(
            (ks.to_set(), left),
        ),
        0 < ks.len() && ks.drop_last().no_duplicates() && ks.drop_last().contains(ks.last())
            ==> <containers::HashSet<K, Len, CheckUniqueKeys, S> as SchemaRead<'de, C>>::dec(
            inp,
        ) == Err::<(Set<K::Val>, Input), Fault>(
            (Fault { err: ReadError::Custom("duplicate key in keyed collection"), left }),
        ),
        ks.len() < n && ks.no_duplicates() && K::dec(left) is Err
            ==> <containers::HashSet<K, Len, CheckUniqueKeys, S> as SchemaRead<'de, C>>::dec(inp)
                == Err::<
            (Set<K::Val>, Input),
            Fault,
        >(K::dec(left)->Err_0),
        ks.len() == n && ks.no_duplicates()
            ==> <containers::BTreeSet<K, Len, CheckUniqueKeys> as SchemaRead<'de, C>>::dec(inp)
                == Ok::<(Set<K::Val>, Input), Fault>(
            (ks.to_set(), left),
        ),
        0 < ks.len() && ks.drop_last().no_duplicates() && ks.drop_last().contains(ks.last())
            ==> <containers::BTreeSet<K, Len, CheckUniqueKeys> as SchemaRead<'de, C>>::dec(
            inp,
        ) == Err::<(Set<K::Val>, Input), Fault>(
            (Fault { err: ReadError::Custom("duplicate key in keyed collection"), left }),
        ),
        ks.len() < n && ks.no_duplicates() && K::dec(left) is Err
            ==> <containers::BTreeSet<K, Len, CheckUniqueKeys> as SchemaRead<'de, C>>::dec(inp)
                == Err::<
            (Set<K::Val>, Input),
            Fault,
        >(K::dec(left)->Err_0),
        ks.len() == n && ks.no_duplicates()
            ==> <containers::OrderedSetSeq<K, Len, CheckUniqueKeys, S> as SchemaRead<'de,
                C>>::dec(inp) == Ok::<(Seq<K::Val>, Input), Fault>(
            (set_in_order(ks), left),
        ),
        0 < ks.len() && ks.drop_last().no_duplicates() && ks.drop_last().contains(ks.last())
            ==> <containers::OrderedSetSeq<K, Len, CheckUniqueKeys, S> as SchemaRead<'de, C>>::dec(
            inp,
        ) == Err::<(Seq<K::Val>, Input), Fault>(
            (Fault { err: ReadError::Custom("duplicate key in keyed collection"), left }),
        ),
        ks.len() < n && ks.no_duplicates() && K::dec(left) is Err
            ==> <containers::OrderedSetSeq<K, Len, CheckUniqueKeys, S> as SchemaRead<'de,
                C>>::dec(inp) == Err::<
            (Seq<K::Val>, Input),
            Fault,
        >(K::dec(left)->Err_0),
{
    let k = ks.len();
    Len::lemma_len_dec(inp);
    if let TypeMeta::Static { size, .. } = K::read_meta() {
        assert(k * size <= n * size) by (nonlinear_arith)
            requires
                k <= n,
        ;
    }
    lemma_elements_are_told_apart::<C, K>(k, mid);
    lemma_elem_dec_n_err::<K, CheckUniqueKeys, C>(k, n, mid);
    if k < n {
        lemma_elem_dec_n_err::<K, CheckUniqueKeys, C>(k + 1, n, mid);
    }
}

/// Where repeated elements are refused, a set that cannot be there is refused as it is elsewhere.
pub proof fn law_sets_with_unique_elements_need_their_bytes<
    'de,
    C: ConfigCore,
    K: SchemaRead<'de, C>,
    Len: SeqLen<C>,
    S: BuildHasher + Default,
>(inp: Input, n: nat, mid: Input, size: nat) where K::Dst: Hash + Eq + Ord
    requires
        Len::len_dec(inp) == Ok::<(nat, Input), Fault>((n, mid)),
        K::read_meta() matches TypeMeta::Static { size: s, .. } && s == size,
    ensures
        !prealloc_ok::<C, K::Dst>(n)
            ==> <containers::HashSet<K, Len, CheckUniqueKeys, S> as SchemaRead<'de, C>>::dec(inp)
                == Err::<(Set<K::Val>, Input), Fault>(
            (Fault { err: prealloc_read_error::<C, K::Dst>(n), left: mid }),
        ),
        prealloc_ok::<C, K::Dst>(n) && n * size > usize::MAX
            ==> <containers::HashSet<K, Len, CheckUniqueKeys, S> as SchemaRead<'de, C>>::dec(inp)
                == Err::<
            (Set<K::Val>, Input),
            Fault,
        >((Fault { err: ReadError::LengthEncodingOverflow("usize::MAX"), left: mid })),
        prealloc_ok::<C, K::Dst>(n) && mid.bytes.len() < n * size <= usize::MAX
            ==> <containers::HashSet<K, Len, CheckUniqueKeys, S> as SchemaRead<'de, C>>::dec(inp)
                == Err::<
            (Set<K::Val>, Input),
            Fault,
        >(
            (Fault {
                err: ReadError::Io(crate::io::ReadError::ReadSizeLimit((n * size) as usize)),
                left: mid,
            }),
        ),
        !prealloc_ok::<C, K::Dst>(n)
            ==> <containers::BTreeSet<K, Len, CheckUniqueKeys> as SchemaRead<'de, C>>::dec(inp)
                == Err::<(Set<K::Val>, Input), Fault>(
            (Fault { err: prealloc_read_error::<C, K::Dst>(n), left: mid }),
        ),
        prealloc_ok::<C, K::Dst>(n) && n * size > usize::MAX
            ==> <containers::BTreeSet<K, Len, CheckUniqueKeys> as SchemaRead<'de, C>>::dec(inp)
                == Err::<
            (Set<K::Val>, Input),
            Fault,
        >((Fault { err: ReadError::LengthEncodingOverflow("usize::MAX"), left: mid })),
        prealloc_ok::<C, K::Dst>(n) && mid.bytes.len() < n * size <= usize::MAX
            ==> <containers::BTreeSet<K, Len, CheckUniqueKeys> as SchemaRead<'de, C>>::dec(inp)
                == Err::<
            (Set<K::Val>, Input),
            Fault,
        >(
            (Fault {
                err: ReadError::Io(crate::io::ReadError::ReadSizeLimit((n * size) as usize)),
                left: mid,
            }),
        ),
        !prealloc_ok::<C, K::Dst>(n)
            ==> <containers::OrderedSetSeq<K, Len, CheckUniqueKeys, S> as SchemaRead<'de,
                C>>::dec(inp) == Err::<(Seq<K::Val>, Input), Fault>(
            (Fault { err: prealloc_read_error::<C, K::Dst>(n), left: mid }),
        ),
        prealloc_ok::<C, K::Dst>(n) && n * size > usize::MAX
            ==> <containers::OrderedSetSeq<K, Len, CheckUniqueKeys, S> as SchemaRead<'de,
                C>>::dec(inp) == Err::<
            (Seq<K::Val>, Input),
            Fault,
        >((Fault { err: ReadError::LengthEncodingOverflow("usize::MAX"), left: mid })),
        prealloc_ok::<C, K::Dst>(n) && mid.bytes.len() < n * size <= usize::MAX
            ==> <containers::OrderedSetSeq<K, Len, CheckUniqueKeys, S> as SchemaRead<'de,
                C>>::dec(inp) == Err::<
            (Seq<K::Val>, Input),
            Fault,
        >(
            (Fault {
                err: ReadError::Io(crate::io::ReadError::ReadSizeLimit((n * size) as usize)),
                left: mid,
            }),
        ),
{
    Len::lemma_len_dec(inp);
}

/// A set without a length encoding of its own has that of the configuration, and repeated elements
/// are allowed in it.
pub proof fn law_plain_sets_are_read_alike<
    'de,
    C: Config,
    K: SchemaRead<'de, C>,
    S: BuildHasher + Default,
>(inp: Input) where K::Dst: Hash + Eq + Ord
    ensures
        <HashSet<K, S> as SchemaRead<'de, C>>::dec(inp)
            == <containers::HashSet<K, C::LengthEncoding, AllowDuplicateKeys,
                S> as SchemaRead<'de, C>>::dec(inp),
        <HashSet<K, S> as SchemaRead<'de, C>>::read_lawful()
            == <containers::HashSet<K, C::LengthEncoding, AllowDuplicateKeys,
                S> as SchemaRead<'de, C>>::read_lawful(),
        <HashSet<K, S> as SchemaRead<'de, C>>::read_meta() is Dynamic,
        <BTreeSet<K> as SchemaRead<'de, C>>::dec(inp)
            == <containers::BTreeSet<K, C::LengthEncoding, AllowDuplicateKeys> as SchemaRead<'de,
                C>>::dec(inp),
        <BTreeSet<K> as SchemaRead<'de, C>>::read_lawful()
            == <containers::BTreeSet<K, C::LengthEncoding, AllowDuplicateKeys> as SchemaRead<'de,
                C>>::read_lawful(),
        <BTreeSet<K> as SchemaRead<'de, C>>::read_meta() is Dynamic,
        <OrderedSet<K, S> as SchemaRead<'de, C>>::dec(inp)
            == <containers::OrderedSetSeq<K, C::LengthEncoding, AllowDuplicateKeys,
                S> as SchemaRead<'de, C>>::dec(inp),
        <OrderedSet<K, S> as SchemaRead<'de, C>>::read_lawful()
            == <containers::OrderedSetSeq<K, C::LengthEncoding, AllowDuplicateKeys,
                S> as SchemaRead<'de, C>>::read_lawful(),
        <OrderedSet<K, S> as SchemaRead<'de, C>>::read_meta() is Dynamic,
{
}

} // verus!
