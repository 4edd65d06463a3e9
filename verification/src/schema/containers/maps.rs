//! Maps: their length and then their entries.
use crate::config::{Config, ConfigCore};
use crate::error::{ReadResult, WriteError, WriteResult};
use crate::io::{Reader, Writer};
use crate::len::{limit_kept, SeqLen};
use crate::model::{Emit, Fault, Input};
use crate::schema::containers::keyed::{
    entry_vals, enumerates, has_key, key_injective, kv_dec, lemma_kv_dec, lemma_map_of_keys,
    lemma_map_vals, made_of_entries, map_of, map_vals, read_kv_seq, MapTarget,
};
use crate::schema::containers::map_rules::{
    lemma_map_emit, lemma_map_round_trip, map_round_trips, map_valid, src_map_vals,
};
use crate::schema::containers::policy::{AllowDuplicateKeys, DuplicateKeyPolicy};
use crate::schema::elems::{
    kv_iter_emit_checked, kv_iter_size_err, size_of_kv_iter, write_kv_iter_prealloc_check,
};
use crate::schema::{Model, RoundTrip, SchemaRead, SchemaWrite, TypeMeta};
use core::hash::{BuildHasher, Hash};
use core::marker::PhantomData;
use std::collections::btree_map;
use std::collections::hash_map;
use std::collections::hash_map::RandomState;
use vstd::prelude::*;
use vstd::std_specs::btree;
use vstd::std_specs::hash;
use vstd::std_specs::iter::IteratorSpec;

verus! {

broadcast use {
    crate::model::lemma_follows_transitive,
    crate::model::lemma_follows_reflexive,
    vstd::std_specs::hash::group_hash_axioms,
    vstd::std_specs::btree::group_btree_axioms,
};

/// A list of all entries in which none occurs twice lists each entry once.
proof fn lemma_listed<K, V>(es: Seq<(&K, &V)>, m: Map<K, V>)
    requires
        es.no_duplicates(),
        forall|i: int|
            #![trigger es[i]]
            0 <= i < es.len() ==> m.contains_key(*es[i].0) && m[*es[i].0] == *es[i].1,
        forall|k: K| #[trigger] m.contains_key(k) ==> es.contains((&k, &m[k])),
    ensures
        enumerates(es.unref(), m),
{
    let us = es.unref();
    assert forall|i: int, j: int| 0 <= i < j < us.len() implies (#[trigger] us[i]).0 != (
    #[trigger] us[j]).0 by {
        if us[i].0 == us[j].0 {
            assert(*es[i].0 == *es[j].0);
            assert(*es[i].1 == *es[j].1);
            assert(es[i] == es[j]);
        }
    }
    assert forall|i: int| 0 <= i < us.len() implies m.contains_key((#[trigger] us[i]).0)
        && m[us[i].0] == us[i].1 by {
        assert(m.contains_key(*es[i].0));
    }
    assert forall|k: K| #[trigger] m.contains_key(k) implies has_key(us, k) by {
        let i = es.index_of((&k, &m[k]));
        assert(us[i].0 == k);
    }
}

/// The order in which a walk through `m` comes by its entries.
pub open spec fn hash_map_order<K, V, S>(m: &std::collections::HashMap<K, V, S>) -> Seq<(K, V)> {
    hash::into_iter(hash::spec_hash_map_iter(m))
}

/// Whether keys are told apart as they should be.
pub open spec fn hash_map_model<K, S>() -> bool {
    hash::obeys_key_model::<K>() && hash::builds_valid_hashers::<S>()
}

/// A walk through the entries of `m`.
pub(crate) fn walk_hash_map<'a, K, V, S>(
    m: &'a std::collections::HashMap<K, V, S>,
) -> (it: hash_map::Iter<'a, K, V>)
    ensures
        it.obeys_prophetic_iter_laws(),
        hash_map_model::<K, S>() ==> {
            &&& it.remaining().unref() == hash_map_order(m)
            &&& enumerates(hash_map_order(m), m@)
            &&& hash_map_order(m).len() == m.len()
        },
{
    let it = m.iter();
    proof {
        walked_hash_map(m, it);
    }
    it
}

proof fn walked_hash_map<'a, K, V, S>(
    m: &'a std::collections::HashMap<K, V, S>,
    it: hash_map::Iter<'a, K, V>,
)
    ensures
        hash_map_model::<K, S>() && it == hash::spec_hash_map_iter(m)
            && it.remaining().no_duplicates() && IteratorSpec::initial_value_relation(&it, &it)
            ==> {
            &&& it.remaining().unref() == hash_map_order(m)
            &&& enumerates(hash_map_order(m), m@)
            &&& hash_map_order(m).len() == m.len()
        },
{
    if hash_map_model::<K, S>() && it == hash::spec_hash_map_iter(m)
        && it.remaining().no_duplicates() && IteratorSpec::initial_value_relation(&it, &it) {
        let es = hash::spec_hash_map_iter(m).remaining();
        assert forall|i: int| #![trigger es[i]] 0 <= i < es.len() implies m@.contains_key(
            *es[i].0,
        ) && m@[*es[i].0] == *es[i].1 by {
            assert(m@.contains_key(*es[i].0));
        }
        lemma_listed(es, m@);
    }
}

impl<
    K: Hash + Eq,
    V,
    S: BuildHasher + Default,
> MapTarget<K, V> for std::collections::HashMap<K, V, S> {
    open spec fn key_model() -> bool {
        hash_map_model::<K, S>()
    }

    open spec fn holds(&self, es: Seq<(K, V)>) -> bool {
        self@ == map_of(es)
    }

    fn empty_map() -> (m: Self) {
        std::collections::HashMap::default()
    }

    fn put(&mut self, k: K, v: V) -> (collided: bool) {
        let replaced = self.insert(k, v);
        proof {
            assert forall|es: Seq<(K, V)>| #[trigger] old(self).holds(es) && Self::key_model() implies {
                &&& final(self).holds(es.push((k, v)))
                &&& (replaced is Some) == has_key(es, k)
            } by {
                lemma_map_of_keys(es);
                assert(es.push((k, v)).drop_last() =~= es);
                assert(map_of(es).contains_key(k) <==> has_key(es, k));
            }
        }
        replaced.is_some()
    }
}

/// A [`std::collections::HashMap`] with the length encoding `Len` and the policy `Dup` for
/// repeated keys.
pub struct HashMap<K, V, Len, Dup = AllowDuplicateKeys, S = RandomState>(
    PhantomData<(K, V, Len, Dup, S)>,
);

impl<K: Model, V: Model, Len, Dup, S> Model for HashMap<K, V, Len, Dup, S> {
    type Val = Map<K::Val, V::Val>;
}

impl<
    C: ConfigCore,
    K: SchemaWrite<C>,
    V: SchemaWrite<C>,
    Len: SeqLen<C>,
    Dup,
    S: BuildHasher + Default,
> SchemaWrite<C> for HashMap<K, V, Len, Dup, S> {
    type Src = std::collections::HashMap<K::Src, V::Src, S>;

    open spec fn src_val(
        src: &std::collections::HashMap<K::Src, V::Src, S>,
    ) -> Map<K::Val, V::Val> {
        src_map_vals::<K, V, C>(src@)
    }

    open spec fn emit(src: &std::collections::HashMap<K::Src, V::Src, S>) -> Emit {
        kv_iter_emit_checked::<K, V, Len, C>(hash_map_order(src), src.len() as nat)
    }

    open spec fn size_err(
        src: &std::collections::HashMap<K::Src, V::Src, S>,
    ) -> Option<WriteError> {
        kv_iter_size_err::<K, V, Len, C>(hash_map_order(src), src.len() as nat)
    }

    open spec fn write_meta() -> TypeMeta {
        TypeMeta::Dynamic
    }

    open spec fn write_lawful() -> bool {
        &&& K::write_lawful()
        &&& V::write_lawful()
        &&& hash_map_model::<K::Src, S>()
    }

    proof fn lemma_emit(src: &std::collections::HashMap<K::Src, V::Src, S>) {
        lemma_map_emit::<K, V, Len, C>(hash_map_order(src), src.len() as nat);
    }

    fn type_meta() -> (m: TypeMeta) {
        TypeMeta::Dynamic
    }

    fn size_of(src: &std::collections::HashMap<K::Src, V::Src, S>) -> (r: WriteResult<usize>) {
        proof {
            lemma_map_emit::<K, V, Len, C>(hash_map_order(src), src.len() as nat);
        }
        let it = walk_hash_map(src);
        size_of_kv_iter::<K, V, Len, C, _>(src.len(), it)
    }

    /// Writing a map comes by each of its entries once.
    fn write<W: Writer>(
        writer: &mut W,
        src: &std::collections::HashMap<K::Src, V::Src, S>,
    ) -> (r: WriteResult<()>)
        ensures
            limit_kept::<C, (K::Src, V::Src)>(
                src.len() as nat,
                old(writer).output(),
                final(writer).output(),
                r,
            ),
            <Self as SchemaWrite<C>>::write_lawful() ==> enumerates(hash_map_order(src), src@),
    {
        let it = walk_hash_map(src);
        write_kv_iter_prealloc_check::<K, V, Len, C, W, _>(writer, src.len(), it)
    }
}

impl<
    'de,
    C: ConfigCore,
    K: SchemaRead<'de, C>,
    V: SchemaRead<'de, C>,
    Len: SeqLen<C>,
    Dup: DuplicateKeyPolicy,
    S: BuildHasher + Default,
> SchemaRead<'de, C> for HashMap<K, V, Len, Dup, S> where
    K::Dst: Hash + Eq,
 {
    type Dst = std::collections::HashMap<K::Dst, V::Dst, S>;

    open spec fn dst_val(
        dst: &std::collections::HashMap<K::Dst, V::Dst, S>,
    ) -> Map<K::Val, V::Val> {
        map_vals::<K, V, C>(dst@)
    }

    open spec fn dec(inp: Input) -> Result<(Map<K::Val, V::Val>, Input), Fault> {
        match kv_dec::<K, V, Len, Dup, C>(inp) {
            Ok((es, rest)) => Ok((map_of(es), rest)),
            Err(e) => Err(e),
        }
    }

    open spec fn read_meta() -> TypeMeta {
        TypeMeta::Dynamic
    }

    open spec fn read_lawful() -> bool {
        &&& K::read_lawful()
        &&& V::read_lawful()
        &&& key_injective::<K, C>()
        &&& hash_map_model::<K::Dst, S>()
    }

    proof fn lemma_dec(inp: Input) {
        lemma_kv_dec::<K, V, Len, Dup, C>(inp);
    }

    fn type_meta() -> (m: TypeMeta) {
        TypeMeta::Dynamic
    }

    fn get<R: Reader<'de>>(
        reader: &mut R,
    ) -> (r: ReadResult<std::collections::HashMap<K::Dst, V::Dst, S>>) {
        let r = read_kv_seq::<K, V, Len, Dup, C, R, std::collections::HashMap<K::Dst, V::Dst, S>>(
            reader,
        );
        proof {
            if <Self as SchemaRead<'de, C>>::read_lawful() {
                if let Ok((es, rest)) = kv_dec::<K, V, Len, Dup, C>(old(reader).input()) {
                    let m = r->Ok_0;
                    assert(
                        made_of_entries::<K, V, C, std::collections::HashMap<K::Dst, V::Dst, S>>(
                            m,
                            es,
                        )
                    );
                    let xs = choose|xs: Seq<(K::Dst, V::Dst)>| #[trigger]
                        m.holds(xs) && entry_vals::<K, V, C>(xs) == es;
                    lemma_map_vals::<K, V, C>(xs);
                }
            }
        }
        r
    }
}

impl<
    'de,
    C: ConfigCore,
    K: RoundTrip<'de, C>,
    V: RoundTrip<'de, C>,
    Len: SeqLen<C>,
    Dup: DuplicateKeyPolicy,
    S: BuildHasher + Default,
> RoundTrip<'de, C> for HashMap<K, V, Len, Dup, S> where
    K::Dst: Hash + Eq,
 {
    open spec fn round_trips() -> bool {
        map_round_trips::<K, V, C>()
    }

    open spec fn src_valid(src: &std::collections::HashMap<K::Src, V::Src, S>) -> bool {
        map_valid::<K, V, C>(hash_map_order(src), src@)
    }

    open spec fn needs_backing() -> bool {
        K::needs_backing() || V::needs_backing()
    }

    proof fn lemma_round_trip(src: &std::collections::HashMap<K::Src, V::Src, S>, rest: Input) {
        lemma_map_round_trip::<K, V, Len, Dup, C>(
            hash_map_order(src),
            src@,
            src.len() as nat,
            rest,
        );
    }
}

/// As [`HashMap`], with the length encoding of the configuration; the last entry with a key wins.
impl<K: Model, V: Model, S> Model for std::collections::HashMap<K, V, S> {
    type Val = Map<K::Val, V::Val>;
}

impl<
    C: Config,
    K: SchemaWrite<C>,
    V: SchemaWrite<C>,
    S: BuildHasher + Default,
> SchemaWrite<C> for std::collections::HashMap<K, V, S> {
    type Src = std::collections::HashMap<K::Src, V::Src, S>;

    open spec fn src_val(
        src: &std::collections::HashMap<K::Src, V::Src, S>,
    ) -> Map<K::Val, V::Val> {
        src_map_vals::<K, V, C>(src@)
    }

    open spec fn emit(src: &std::collections::HashMap<K::Src, V::Src, S>) -> Emit {
        kv_iter_emit_checked::<K, V, C::LengthEncoding, C>(hash_map_order(src), src.len() as nat)
    }

    open spec fn size_err(
        src: &std::collections::HashMap<K::Src, V::Src, S>,
    ) -> Option<WriteError> {
        kv_iter_size_err::<K, V, C::LengthEncoding, C>(hash_map_order(src), src.len() as nat)
    }

    open spec fn write_meta() -> TypeMeta {
        TypeMeta::Dynamic
    }

    open spec fn write_lawful() -> bool {
        &&& K::write_lawful()
        &&& V::write_lawful()
        &&& hash_map_model::<K::Src, S>()
    }

    proof fn lemma_emit(src: &std::collections::HashMap<K::Src, V::Src, S>) {
        lemma_map_emit::<K, V, C::LengthEncoding, C>(hash_map_order(src), src.len() as nat);
    }

    fn type_meta() -> (m: TypeMeta) {
        TypeMeta::Dynamic
    }

    fn size_of(src: &std::collections::HashMap<K::Src, V::Src, S>) -> (r: WriteResult<usize>) {
        proof {
            lemma_map_emit::<K, V, C::LengthEncoding, C>(hash_map_order(src), src.len() as nat);
        }
        let it = walk_hash_map(src);
        size_of_kv_iter::<K, V, C::LengthEncoding, C, _>(src.len(), it)
    }

    /// Writing a map comes by each of its entries once.
    fn write<W: Writer>(
        writer: &mut W,
        src: &std::collections::HashMap<K::Src, V::Src, S>,
    ) -> (r: WriteResult<()>)
        ensures
            limit_kept::<C, (K::Src, V::Src)>(
                src.len() as nat,
                old(writer).output(),
                final(writer).output(),
                r,
            ),
            <Self as SchemaWrite<C>>::write_lawful() ==> enumerates(hash_map_order(src), src@),
    {
        let it = walk_hash_map(src);
        write_kv_iter_prealloc_check::<K, V, C::LengthEncoding, C, W, _>(writer, src.len(), it)
    }
}

impl<
    'de,
    C: Config,
    K: SchemaRead<'de, C>,
    V: SchemaRead<'de, C>,
    S: BuildHasher + Default,
> SchemaRead<'de, C> for std::collections::HashMap<K, V, S> where
    K::Dst: Hash + Eq,
 {
    type Dst = std::collections::HashMap<K::Dst, V::Dst, S>;

    open spec fn dst_val(
        dst: &std::collections::HashMap<K::Dst, V::Dst, S>,
    ) -> Map<K::Val, V::Val> {
        map_vals::<K, V, C>(dst@)
    }

    open spec fn dec(inp: Input) -> Result<(Map<K::Val, V::Val>, Input), Fault> {
        match kv_dec::<K, V, C::LengthEncoding, AllowDuplicateKeys, C>(inp) {
            Ok((es, rest)) => Ok((map_of(es), rest)),
            Err(e) => Err(e),
        }
    }

    open spec fn read_meta() -> TypeMeta {
        TypeMeta::Dynamic
    }

    open spec fn read_lawful() -> bool {
        &&& K::read_lawful()
        &&& V::read_lawful()
        &&& key_injective::<K, C>()
        &&& hash_map_model::<K::Dst, S>()
    }

    proof fn lemma_dec(inp: Input) {
        lemma_kv_dec::<K, V, C::LengthEncoding, AllowDuplicateKeys, C>(inp);
    }

    fn type_meta() -> (m: TypeMeta) {
        TypeMeta::Dynamic
    }

    fn get<R: Reader<'de>>(
        reader: &mut R,
    ) -> (r: ReadResult<std::collections::HashMap<K::Dst, V::Dst, S>>) {
        let r = read_kv_seq::<K, V, C::LengthEncoding, AllowDuplicateKeys, C, R, std::collections::HashMap<K::Dst, V::Dst, S>>(reader);
        proof {
            if <Self as SchemaRead<'de, C>>::read_lawful() {
                if let Ok((es, rest)) = kv_dec::<K, V, C::LengthEncoding, AllowDuplicateKeys, C>(
                    old(reader).input(),
                ) {
                    let m = r->Ok_0;
                    assert(
                        made_of_entries::<K, V, C, std::collections::HashMap<K::Dst, V::Dst, S>>(
                            m,
                            es,
                        )
                    );
                    let xs = choose|xs: Seq<(K::Dst, V::Dst)>| #[trigger]
                        m.holds(xs) && entry_vals::<K, V, C>(xs) == es;
                    lemma_map_vals::<K, V, C>(xs);
                }
            }
        }
        r
    }
}

impl<
    'de,
    C: Config,
    K: RoundTrip<'de, C>,
    V: RoundTrip<'de, C>,
    S: BuildHasher + Default,
> RoundTrip<'de, C> for std::collections::HashMap<K, V, S> where
    K::Dst: Hash + Eq,
 {
    open spec fn round_trips() -> bool {
        map_round_trips::<K, V, C>()
    }

    open spec fn src_valid(src: &std::collections::HashMap<K::Src, V::Src, S>) -> bool {
        map_valid::<K, V, C>(hash_map_order(src), src@)
    }

    open spec fn needs_backing() -> bool {
        K::needs_backing() || V::needs_backing()
    }

    proof fn lemma_round_trip(src: &std::collections::HashMap<K::Src, V::Src, S>, rest: Input) {
        lemma_map_round_trip::<K, V, C::LengthEncoding, AllowDuplicateKeys, C>(
            hash_map_order(src),
            src@,
            src.len() as nat,
            rest,
        );
    }
}

/// The order in which a walk through `m` comes by its entries.
pub open spec fn btree_map_order<K, V>(m: &std::collections::BTreeMap<K, V>) -> Seq<(K, V)> {
    btree::into_iter(btree::spec_btree_map_iter(m))
}

/// Whether the keys of `es` are in ascending order.
pub open spec fn ascending_keys<K, V>(es: Seq<(K, V)>) -> bool {
    btree::increasing_seq(es.map_values(|e: (K, V)| e.0))
}

/// Whether keys are told apart as they should be.
pub open spec fn btree_map_model<K>() -> bool {
    btree::key_obeys_cmp_spec::<K>()
}

/// A walk through the entries of `m`.
pub(crate) fn walk_btree_map<'a, K, V>(
    m: &'a std::collections::BTreeMap<K, V>,
) -> (it: btree_map::Iter<'a, K, V>)
    ensures
        it.obeys_prophetic_iter_laws(),
        btree_map_model::<K>() ==> {
            &&& it.remaining().unref() == btree_map_order(m)
            &&& enumerates(btree_map_order(m), m@)
            &&& ascending_keys(btree_map_order(m))
            &&& btree_map_order(m).len() == m.len()
        },
{
    let it = m.iter();
    proof {
        walked_btree_map(m, it);
        if btree_map_model::<K>() {
            assert(btree_map_order(m).map_values(|e: (K, V)| e.0) =~= it.remaining().map_values(
                |kv: (&K, &V)| *kv.0,
            ));
        }
    }
    it
}

proof fn walked_btree_map<'a, K, V>(
    m: &'a std::collections::BTreeMap<K, V>,
    it: btree_map::Iter<'a, K, V>,
)
    ensures
        btree_map_model::<K>() && it == btree::spec_btree_map_iter(m)
            && it.remaining().no_duplicates() && IteratorSpec::initial_value_relation(&it, &it)
            ==> {
            &&& it.remaining().unref() == btree_map_order(m)
            &&& enumerates(btree_map_order(m), m@)
            &&& btree_map_order(m).len() == m.len()
        },
{
    if btree_map_model::<K>() && it == btree::spec_btree_map_iter(m)
        && it.remaining().no_duplicates() && IteratorSpec::initial_value_relation(&it, &it) {
        let es = btree::spec_btree_map_iter(m).remaining();
        assert forall|i: int| #![trigger es[i]] 0 <= i < es.len() implies m@.contains_key(
            *es[i].0,
        ) && m@[*es[i].0] == *es[i].1 by {
            assert(m@.contains_key(*es[i].0));
        }
        lemma_listed(es, m@);
    }
}

impl<K: Ord, V> MapTarget<K, V> for std::collections::BTreeMap<K, V> {
    open spec fn key_model() -> bool {
        btree_map_model::<K>()
    }

    open spec fn holds(&self, es: Seq<(K, V)>) -> bool {
        self@ == map_of(es)
    }

    fn empty_map() -> (m: Self) {
        std::collections::BTreeMap::new()
    }

    fn put(&mut self, k: K, v: V) -> (collided: bool) {
        let replaced = self.insert(k, v);
        proof {
            assert forall|es: Seq<(K, V)>| #[trigger] old(self).holds(es) && Self::key_model() implies {
                &&& final(self).holds(es.push((k, v)))
                &&& (replaced is Some) == has_key(es, k)
            } by {
                lemma_map_of_keys(es);
                assert(es.push((k, v)).drop_last() =~= es);
                assert(map_of(es).contains_key(k) <==> has_key(es, k));
            }
        }
        replaced.is_some()
    }
}

/// A [`std::collections::BTreeMap`] with the length encoding `Len` and the policy `Dup` for
/// repeated keys.
pub struct BTreeMap<K, V, Len, Dup = AllowDuplicateKeys>(PhantomData<(K, V, Len, Dup)>);

impl<K: Model, V: Model, Len, Dup> Model for BTreeMap<K, V, Len, Dup> {
    type Val = Map<K::Val, V::Val>;
}

impl<
    C: ConfigCore,
    K: SchemaWrite<C>,
    V: SchemaWrite<C>,
    Len: SeqLen<C>,
    Dup,
> SchemaWrite<C> for BTreeMap<K, V, Len, Dup> {
    type Src = std::collections::BTreeMap<K::Src, V::Src>;

    open spec fn src_val(src: &std::collections::BTreeMap<K::Src, V::Src>) -> Map<K::Val, V::Val> {
        src_map_vals::<K, V, C>(src@)
    }

    open spec fn emit(src: &std::collections::BTreeMap<K::Src, V::Src>) -> Emit {
        kv_iter_emit_checked::<K, V, Len, C>(btree_map_order(src), src.len() as nat)
    }

    open spec fn size_err(src: &std::collections::BTreeMap<K::Src, V::Src>) -> Option<WriteError> {
        kv_iter_size_err::<K, V, Len, C>(btree_map_order(src), src.len() as nat)
    }

    open spec fn write_meta() -> TypeMeta {
        TypeMeta::Dynamic
    }

    open spec fn write_lawful() -> bool {
        &&& K::write_lawful()
        &&& V::write_lawful()
        &&& btree_map_model::<K::Src>()
    }

    proof fn lemma_emit(src: &std::collections::BTreeMap<K::Src, V::Src>) {
        lemma_map_emit::<K, V, Len, C>(btree_map_order(src), src.len() as nat);
    }

    fn type_meta() -> (m: TypeMeta) {
        TypeMeta::Dynamic
    }

    fn size_of(src: &std::collections::BTreeMap<K::Src, V::Src>) -> (r: WriteResult<usize>) {
        proof {
            lemma_map_emit::<K, V, Len, C>(btree_map_order(src), src.len() as nat);
        }
        let it = walk_btree_map(src);
        size_of_kv_iter::<K, V, Len, C, _>(src.len(), it)
    }

    /// Writing a map comes by each of its entries once, in ascending order of the keys.
    fn write<W: Writer>(
        writer: &mut W,
        src: &std::collections::BTreeMap<K::Src, V::Src>,
    ) -> (r: WriteResult<()>)
        ensures
            limit_kept::<C, (K::Src, V::Src)>(
                src.len() as nat,
                old(writer).output(),
                final(writer).output(),
                r,
            ),
            <Self as SchemaWrite<C>>::write_lawful() ==> {
                &&& enumerates(btree_map_order(src), src@)
                &&& ascending_keys(btree_map_order(src))
            },
    {
        let it = walk_btree_map(src);
        write_kv_iter_prealloc_check::<K, V, Len, C, W, _>(writer, src.len(), it)
    }
}

impl<
    'de,
    C: ConfigCore,
    K: SchemaRead<'de, C>,
    V: SchemaRead<'de, C>,
    Len: SeqLen<C>,
    Dup: DuplicateKeyPolicy,
> SchemaRead<'de, C> for BTreeMap<K, V, Len, Dup> where
    K::Dst: Ord,
 {
    type Dst = std::collections::BTreeMap<K::Dst, V::Dst>;

    open spec fn dst_val(dst: &std::collections::BTreeMap<K::Dst, V::Dst>) -> Map<K::Val, V::Val> {
        map_vals::<K, V, C>(dst@)
    }

    open spec fn dec(inp: Input) -> Result<(Map<K::Val, V::Val>, Input), Fault> {
        match kv_dec::<K, V, Len, Dup, C>(inp) {
            Ok((es, rest)) => Ok((map_of(es), rest)),
            Err(e) => Err(e),
        }
    }

    open spec fn read_meta() -> TypeMeta {
        TypeMeta::Dynamic
    }

    open spec fn read_lawful() -> bool {
        &&& K::read_lawful()
        &&& V::read_lawful()
        &&& key_injective::<K, C>()
        &&& btree_map_model::<K::Dst>()
    }

    proof fn lemma_dec(inp: Input) {
        lemma_kv_dec::<K, V, Len, Dup, C>(inp);
    }

    fn type_meta() -> (m: TypeMeta) {
        TypeMeta::Dynamic
    }

    fn get<R: Reader<'de>>(
        reader: &mut R,
    ) -> (r: ReadResult<std::collections::BTreeMap<K::Dst, V::Dst>>) {
        let r = read_kv_seq::<K, V, Len, Dup, C, R, std::collections::BTreeMap<K::Dst, V::Dst>>(
            reader,
        );
        proof {
            if <Self as SchemaRead<'de, C>>::read_lawful() {
                if let Ok((es, rest)) = kv_dec::<K, V, Len, Dup, C>(old(reader).input()) {
                    let m = r->Ok_0;
                    assert(
                        made_of_entries::<K, V, C, std::collections::BTreeMap<K::Dst, V::Dst>>(
                            m,
                            es,
                        )
                    );
                    let xs = choose|xs: Seq<(K::Dst, V::Dst)>| #[trigger]
                        m.holds(xs) && entry_vals::<K, V, C>(xs) == es;
                    lemma_map_vals::<K, V, C>(xs);
                }
            }
        }
        r
    }
}

impl<
    'de,
    C: ConfigCore,
    K: RoundTrip<'de, C>,
    V: RoundTrip<'de, C>,
    Len: SeqLen<C>,
    Dup: DuplicateKeyPolicy,
> RoundTrip<'de, C> for BTreeMap<K, V, Len, Dup> where
    K::Dst: Ord,
 {
    open spec fn round_trips() -> bool {
        map_round_trips::<K, V, C>()
    }

    open spec fn src_valid(src: &std::collections::BTreeMap<K::Src, V::Src>) -> bool {
        map_valid::<K, V, C>(btree_map_order(src), src@)
    }

    open spec fn needs_backing() -> bool {
        K::needs_backing() || V::needs_backing()
    }

    proof fn lemma_round_trip(src: &std::collections::BTreeMap<K::Src, V::Src>, rest: Input) {
        lemma_map_round_trip::<K, V, Len, Dup, C>(
            btree_map_order(src),
            src@,
            src.len() as nat,
            rest,
        );
    }
}

/// As [`BTreeMap`], with the length encoding of the configuration; the last entry with a key wins.
impl<K: Model, V: Model> Model for std::collections::BTreeMap<K, V> {
    type Val = Map<K::Val, V::Val>;
}

impl<
    C: Config,
    K: SchemaWrite<C>,
    V: SchemaWrite<C>,
> SchemaWrite<C> for std::collections::BTreeMap<K, V> {
    type Src = std::collections::BTreeMap<K::Src, V::Src>;

    open spec fn src_val(src: &std::collections::BTreeMap<K::Src, V::Src>) -> Map<K::Val, V::Val> {
        src_map_vals::<K, V, C>(src@)
    }

    open spec fn emit(src: &std::collections::BTreeMap<K::Src, V::Src>) -> Emit {
        kv_iter_emit_checked::<K, V, C::LengthEncoding, C>(btree_map_order(src), src.len() as nat)
    }

    open spec fn size_err(src: &std::collections::BTreeMap<K::Src, V::Src>) -> Option<WriteError> {
        kv_iter_size_err::<K, V, C::LengthEncoding, C>(btree_map_order(src), src.len() as nat)
    }

    open spec fn write_meta() -> TypeMeta {
        TypeMeta::Dynamic
    }

    open spec fn write_lawful() -> bool {
        &&& K::write_lawful()
        &&& V::write_lawful()
        &&& btree_map_model::<K::Src>()
    }

    proof fn lemma_emit(src: &std::collections::BTreeMap<K::Src, V::Src>) {
        lemma_map_emit::<K, V, C::LengthEncoding, C>(btree_map_order(src), src.len() as nat);
    }

    fn type_meta() -> (m: TypeMeta) {
        TypeMeta::Dynamic
    }

    fn size_of(src: &std::collections::BTreeMap<K::Src, V::Src>) -> (r: WriteResult<usize>) {
        proof {
            lemma_map_emit::<K, V, C::LengthEncoding, C>(btree_map_order(src), src.len() as nat);
        }
        let it = walk_btree_map(src);
        size_of_kv_iter::<K, V, C::LengthEncoding, C, _>(src.len(), it)
    }

    /// Writing a map comes by each of its entries once, in ascending order of the keys.
    fn write<W: Writer>(
        writer: &mut W,
        src: &std::collections::BTreeMap<K::Src, V::Src>,
    ) -> (r: WriteResult<()>)
        ensures
            limit_kept::<C, (K::Src, V::Src)>(
                src.len() as nat,
                old(writer).output(),
                final(writer).output(),
                r,
            ),
            <Self as SchemaWrite<C>>::write_lawful() ==> {
                &&& enumerates(btree_map_order(src), src@)
                &&& ascending_keys(btree_map_order(src))
            },
    {
        let it = walk_btree_map(src);
        write_kv_iter_prealloc_check::<K, V, C::LengthEncoding, C, W, _>(writer, src.len(), it)
    }
}

impl<
    'de,
    C: Config,
    K: SchemaRead<'de, C>,
    V: SchemaRead<'de, C>,
> SchemaRead<'de, C> for std::collections::BTreeMap<K, V> where
    K::Dst: Ord,
 {
    type Dst = std::collections::BTreeMap<K::Dst, V::Dst>;

    open spec fn dst_val(dst: &std::collections::BTreeMap<K::Dst, V::Dst>) -> Map<K::Val, V::Val> {
        map_vals::<K, V, C>(dst@)
    }

    open spec fn dec(inp: Input) -> Result<(Map<K::Val, V::Val>, Input), Fault> {
        match kv_dec::<K, V, C::LengthEncoding, AllowDuplicateKeys, C>(inp) {
            Ok((es, rest)) => Ok((map_of(es), rest)),
            Err(e) => Err(e),
        }
    }

    open spec fn read_meta() -> TypeMeta {
        TypeMeta::Dynamic
    }

    open spec fn read_lawful() -> bool {
        &&& K::read_lawful()
        &&& V::read_lawful()
        &&& key_injective::<K, C>()
        &&& btree_map_model::<K::Dst>()
    }

    proof fn lemma_dec(inp: Input) {
        lemma_kv_dec::<K, V, C::LengthEncoding, AllowDuplicateKeys, C>(inp);
    }

    fn type_meta() -> (m: TypeMeta) {
        TypeMeta::Dynamic
    }

    fn get<R: Reader<'de>>(
        reader: &mut R,
    ) -> (r: ReadResult<std::collections::BTreeMap<K::Dst, V::Dst>>) {
        let r = read_kv_seq::<K, V, C::LengthEncoding, AllowDuplicateKeys, C, R, std::collections::BTreeMap<K::Dst, V::Dst>>(reader);
        proof {
            if <Self as SchemaRead<'de, C>>::read_lawful() {
                if let Ok((es, rest)) = kv_dec::<K, V, C::LengthEncoding, AllowDuplicateKeys, C>(
                    old(reader).input(),
                ) {
                    let m = r->Ok_0;
                    assert(
                        made_of_entries::<K, V, C, std::collections::BTreeMap<K::Dst, V::Dst>>(
                            m,
                            es,
                        )
                    );
                    let xs = choose|xs: Seq<(K::Dst, V::Dst)>| #[trigger]
                        m.holds(xs) && entry_vals::<K, V, C>(xs) == es;
                    lemma_map_vals::<K, V, C>(xs);
                }
            }
        }
        r
    }
}

impl<
    'de,
    C: Config,
    K: RoundTrip<'de, C>,
    V: RoundTrip<'de, C>,
> RoundTrip<'de, C> for std::collections::BTreeMap<K, V> where
    K::Dst: Ord,
 {
    open spec fn round_trips() -> bool {
        map_round_trips::<K, V, C>()
    }

    open spec fn src_valid(src: &std::collections::BTreeMap<K::Src, V::Src>) -> bool {
        map_valid::<K, V, C>(btree_map_order(src), src@)
    }

    open spec fn needs_backing() -> bool {
        K::needs_backing() || V::needs_backing()
    }

    proof fn lemma_round_trip(src: &std::collections::BTreeMap<K::Src, V::Src>, rest: Input) {
        lemma_map_round_trip::<K, V, C::LengthEncoding, AllowDuplicateKeys, C>(
            btree_map_order(src),
            src@,
            src.len() as nat,
            rest,
        );
    }
}

} // verus!
