//! Insertion-ordered maps and sets: their length, and their entries in order.
use crate::config::{Config, ConfigCore};
use crate::error::{ReadError, ReadResult, WriteError, WriteResult};
use crate::io::{Reader, Writer};
use crate::len::{limit_kept, SeqLen};
use crate::model::{Emit, Fault, Input};
use crate::schema::containers::decode::{dst_vals, src_vals};
use crate::schema::containers::keyed::{
    elem_dec, entry_vals, key_injective, kv_dec, lemma_elem_dec, lemma_kv_dec, made_of_elems,
    made_of_entries, map_of, read_elem_seq, read_kv_seq, MapTarget, SetTarget,
};
use crate::schema::containers::map_rules::{
    lemma_map_emit, lemma_map_round_trip, map_round_trips, src_entry_vals,
};
use crate::schema::containers::policy::{AllowDuplicateKeys, DuplicateKeyPolicy};
use crate::schema::containers::iter::law_iter_encodes_like_a_vector;
use crate::schema::containers::seq::lemma_seq_emit;
use crate::schema::containers::set_rules::{lemma_set_round_trip, set_round_trips};
use crate::schema::elems::{
    kv_iter_emit_checked, kv_iter_size_err, lemma_emit_all, lemma_emit_first, seq_emit_checked,
    seq_size_err, size_of_elem_iter, size_of_kv_iter, write_elem_iter_prealloc_check,
    write_kv_iter_prealloc_check,
};
use crate::schema::external::ordered::{index_model, OrderedMap, OrderedSet};
use crate::schema::external::ordered_rules::{
    distinct_keys, in_order, law_distinct_elements_keep_their_order,
    law_distinct_entries_keep_their_order, lemma_distinct_enumerates, lemma_in_order_vals,
    lemma_set_in_order_vals, set_in_order,
};
use crate::schema::{Model, RoundTrip, SchemaRead, SchemaWrite, TypeMeta};
use core::hash::{BuildHasher, Hash};
use core::marker::PhantomData;
use std::collections::hash_map::RandomState;
use vstd::prelude::*;

verus! {

broadcast use {
    crate::model::lemma_follows_transitive,
    crate::model::lemma_follows_reflexive,
    crate::schema::elems::lemma_lent_refs,
};

/// References to the entries of `m`, in order.
pub(crate) fn walk_map<'a, K, V, S>(
    m: &'a OrderedMap<K, V, S>,
) -> (refs: std::vec::Vec<(&'a K, &'a V)>)
    ensures
        refs@.unref() == m.entries(),
        m.lawful() ==> distinct_keys(m.entries()),
{
    let n: usize = m.count();
    let mut refs: std::vec::Vec<(&'a K, &'a V)> = std::vec::Vec::new();
    let mut i: usize = 0;
    while i < n
        invariant
            i <= n,
            n == m.entries().len(),
            refs@.unref() == m.entries().take(i as int),
            m.lawful() ==> distinct_keys(m.entries().take(i as int)),
        decreases n - i,
    {
        let ghost before = refs@;
        match m.entry_at(i) {
            Some((k, v)) => {
                refs.push((k, v));
                proof {
                    assert(refs@.unref() =~= before.unref().push(m.entries()[i as int]));
                    assert(m.entries().take(i + 1) =~= m.entries().take(i as int).push(
                        m.entries()[i as int],
                    ));
                }
            },
            None => {},
        }
        i = i + 1;
    }
    proof {
        assert(m.entries().take(n as int) =~= m.entries());
    }
    refs
}

/// References to the elements of `s`, in order.
pub(crate) fn walk_set<'a, T, S>(s: &'a OrderedSet<T, S>) -> (refs: std::vec::Vec<&'a T>)
    ensures
        refs@.unref() == s.elems(),
        s.lawful() ==> s.elems().no_duplicates(),
{
    let n: usize = s.count();
    let mut refs: std::vec::Vec<&'a T> = std::vec::Vec::new();
    let mut i: usize = 0;
    while i < n
        invariant
            i <= n,
            n == s.elems().len(),
            refs@.unref() == s.elems().take(i as int),
            s.lawful() ==> s.elems().take(i as int).no_duplicates(),
        decreases n - i,
    {
        let ghost before = refs@;
        match s.elem_at(i) {
            Some(k) => {
                refs.push(k);
                proof {
                    assert(refs@.unref() =~= before.unref().push(s.elems()[i as int]));
                    assert(s.elems().take(i + 1) =~= s.elems().take(i as int).push(
                        s.elems()[i as int],
                    ));
                }
            },
            None => {},
        }
        i = i + 1;
    }
    proof {
        assert(s.elems().take(n as int) =~= s.elems());
    }
    refs
}

/// An [`OrderedMap`] with the length encoding `Len` and the policy `Dup` for repeated keys.
pub struct OrderedMapSeq<K, V, Len, Dup = AllowDuplicateKeys, S = RandomState>(
    PhantomData<(K, V, Len, Dup, S)>,
);

impl<K: Model, V: Model, Len, Dup, S> Model for OrderedMapSeq<K, V, Len, Dup, S> {
    /// The entries, in order.
    type Val = Seq<(K::Val, V::Val)>;
}

/// The entries are written in order. On reading, a repeated key keeps its first place and takes its
/// last value, or is an error if the policy says so.
impl<
    C: ConfigCore,
    K: SchemaWrite<C>,
    V: SchemaWrite<C>,
    S,
    Len: SeqLen<C>,
    Dup,
> SchemaWrite<C> for OrderedMapSeq<K, V, Len, Dup, S> {
    type Src = OrderedMap<K::Src, V::Src, S>;

    open spec fn src_val(src: &OrderedMap<K::Src, V::Src, S>) -> Seq<(K::Val, V::Val)> {
        src_entry_vals::<K, V, C>(src.entries())
    }

    open spec fn emit(src: &OrderedMap<K::Src, V::Src, S>) -> Emit {
        kv_iter_emit_checked::<K, V, Len, C>(src.entries(), src.entries().len())
    }

    open spec fn size_err(src: &OrderedMap<K::Src, V::Src, S>) -> Option<WriteError> {
        kv_iter_size_err::<K, V, Len, C>(src.entries(), src.entries().len())
    }

    open spec fn write_meta() -> TypeMeta {
        TypeMeta::Dynamic
    }

    open spec fn write_lawful() -> bool {
        K::write_lawful() && V::write_lawful()
    }

    proof fn lemma_emit(src: &OrderedMap<K::Src, V::Src, S>) {
        lemma_map_emit::<K, V, Len, C>(src.entries(), src.entries().len());
    }

    fn type_meta() -> (m: TypeMeta) {
        TypeMeta::Dynamic
    }

    fn size_of(src: &OrderedMap<K::Src, V::Src, S>) -> (r: WriteResult<usize>) {
        proof {
            lemma_map_emit::<K, V, Len, C>(src.entries(), src.entries().len());
        }
        let refs = walk_map(src);
        let len: usize = refs.len();
        size_of_kv_iter::<K, V, Len, C, _>(len, refs.into_iter())
    }

    /// No two entries of what is written have the same key.
    fn write<W: Writer>(writer: &mut W, src: &OrderedMap<K::Src, V::Src, S>) -> (r: WriteResult<()>)
        ensures
            limit_kept::<C, (K::Src, V::Src)>(
                src.entries().len(),
                old(writer).output(),
                final(writer).output(),
                r,
            ),
            <Self as SchemaWrite<C>>::write_lawful() && src.lawful() ==> distinct_keys(
                src.entries(),
            ),
    {
        let refs = walk_map(src);
        let len: usize = refs.len();
        write_kv_iter_prealloc_check::<K, V, Len, C, W, _>(writer, len, refs.into_iter())
    }
}

impl<
    'de,
    C: ConfigCore,
    K: SchemaRead<'de, C>,
    V: SchemaRead<'de, C>,
    S: BuildHasher + Default,
    Len: SeqLen<C>,
    Dup: DuplicateKeyPolicy,
> SchemaRead<'de, C> for OrderedMapSeq<K, V, Len, Dup, S> where
    K::Dst: Hash + Eq,
 {
    type Dst = OrderedMap<K::Dst, V::Dst, S>;

    open spec fn dst_val(dst: &OrderedMap<K::Dst, V::Dst, S>) -> Seq<(K::Val, V::Val)> {
        entry_vals::<K, V, C>(dst.entries())
    }

    open spec fn dec(inp: Input) -> Result<(Seq<(K::Val, V::Val)>, Input), Fault> {
        match kv_dec::<K, V, Len, Dup, C>(inp) {
            Ok((es, rest)) => Ok((in_order(es), rest)),
            Err(e) => Err(e),
        }
    }

    open spec fn read_meta() -> TypeMeta {
        TypeMeta::Dynamic
    }

    open spec fn read_lawful() -> bool {
        &&& K::read_lawful()
        &&& V::read_lawful()
        &&& key_injective::<K, C>()
        &&& index_model::<K::Dst, S>()
    }

    proof fn lemma_dec(inp: Input) {
        lemma_kv_dec::<K, V, Len, Dup, C>(inp);
    }

    fn type_meta() -> (m: TypeMeta) {
        TypeMeta::Dynamic
    }

    fn get<R: Reader<'de>>(reader: &mut R) -> (r: ReadResult<OrderedMap<K::Dst, V::Dst, S>>) {
        let r = read_kv_seq::<K, V, Len, Dup, C, R, OrderedMap<K::Dst, V::Dst, S>>(reader);
        proof {
            if <Self as SchemaRead<'de, C>>::read_lawful() {
                if let Ok((es, rest)) = kv_dec::<K, V, Len, Dup, C>(old(reader).input()) {
                    let m = r->Ok_0;
                    assert(made_of_entries::<K, V, C, OrderedMap<K::Dst, V::Dst, S>>(m, es));
                    let xs = choose|xs: Seq<(K::Dst, V::Dst)>| #[trigger]
                        m.holds(xs) && entry_vals::<K, V, C>(xs) == es;
                    lemma_in_order_vals::<K, V, C>(xs);
                }
            }
        }
        r
    }
}

impl<
    'de,
    C: ConfigCore,
    K: RoundTrip<'de, C>,
    V: RoundTrip<'de, C>,
    S: BuildHasher + Default,
    Len: SeqLen<C>,
    Dup: DuplicateKeyPolicy,
> RoundTrip<'de, C> for OrderedMapSeq<K, V, Len, Dup, S> where
    K::Dst: Hash + Eq,
 {
    open spec fn round_trips() -> bool {
        map_round_trips::<K, V, C>()
    }

    open spec fn src_valid(src: &OrderedMap<K::Src, V::Src, S>) -> bool {
        &&& src.entries().len() <= usize::MAX
        &&& distinct_keys(src.entries())
        &&& forall|i: int|
            0 <= i < src.entries().len() ==> K::src_valid(&(#[trigger] src.entries()[i]).0)
                && V::src_valid(&src.entries()[i].1)
    }

    open spec fn needs_backing() -> bool {
        K::needs_backing() || V::needs_backing()
    }

    proof fn lemma_round_trip(src: &OrderedMap<K::Src, V::Src, S>, rest: Input) {
        let es = src.entries();
        lemma_distinct_enumerates(es);
        lemma_map_round_trip::<K, V, Len, Dup, C>(es, map_of(es), es.len(), rest);
        let vs = src_entry_vals::<K, V, C>(es);
        assert(distinct_keys(vs)) by {
            assert forall|i: int, j: int| 0 <= i < j < vs.len() implies (#[trigger] vs[i]).0 != (
            #[trigger] vs[j]).0 by {
                if K::src_val(&es[i].0) == K::src_val(&es[j].0) {
                    assert(es[i].0 == es[j].0);
                }
            }
        }
        law_distinct_entries_keep_their_order(vs);
    }
}

impl<K: Model, V: Model, S> Model for OrderedMap<K, V, S> {
    /// The entries, in order.
    type Val = Seq<(K::Val, V::Val)>;
}

/// As [`OrderedMapSeq`], with the length encoding of the configuration; repeated keys are allowed.
impl<C: Config, K: SchemaWrite<C>, V: SchemaWrite<C>, S> SchemaWrite<C> for OrderedMap<K, V, S> {
    type Src = OrderedMap<K::Src, V::Src, S>;

    open spec fn src_val(src: &OrderedMap<K::Src, V::Src, S>) -> Seq<(K::Val, V::Val)> {
        src_entry_vals::<K, V, C>(src.entries())
    }

    open spec fn emit(src: &OrderedMap<K::Src, V::Src, S>) -> Emit {
        kv_iter_emit_checked::<K, V, C::LengthEncoding, C>(src.entries(), src.entries().len())
    }

    open spec fn size_err(src: &OrderedMap<K::Src, V::Src, S>) -> Option<WriteError> {
        kv_iter_size_err::<K, V, C::LengthEncoding, C>(src.entries(), src.entries().len())
    }

    open spec fn write_meta() -> TypeMeta {
        TypeMeta::Dynamic
    }

    open spec fn write_lawful() -> bool {
        K::write_lawful() && V::write_lawful()
    }

    proof fn lemma_emit(src: &OrderedMap<K::Src, V::Src, S>) {
        lemma_map_emit::<K, V, C::LengthEncoding, C>(src.entries(), src.entries().len());
    }

    fn type_meta() -> (m: TypeMeta) {
        TypeMeta::Dynamic
    }

    fn size_of(src: &OrderedMap<K::Src, V::Src, S>) -> (r: WriteResult<usize>) {
        proof {
            lemma_map_emit::<K, V, C::LengthEncoding, C>(src.entries(), src.entries().len());
        }
        let refs = walk_map(src);
        let len: usize = refs.len();
        size_of_kv_iter::<K, V, C::LengthEncoding, C, _>(len, refs.into_iter())
    }

    /// No two entries of what is written have the same key.
    fn write<W: Writer>(writer: &mut W, src: &OrderedMap<K::Src, V::Src, S>) -> (r: WriteResult<()>)
        ensures
            limit_kept::<C, (K::Src, V::Src)>(
                src.entries().len(),
                old(writer).output(),
                final(writer).output(),
                r,
            ),
            <Self as SchemaWrite<C>>::write_lawful() && src.lawful() ==> distinct_keys(
                src.entries(),
            ),
    {
        let refs = walk_map(src);
        let len: usize = refs.len();
        write_kv_iter_prealloc_check::<K, V, C::LengthEncoding, C, W, _>(
            writer,
            len,
            refs.into_iter(),
        )
    }
}

impl<
    'de,
    C: Config,
    K: SchemaRead<'de, C>,
    V: SchemaRead<'de, C>,
    S: BuildHasher + Default,
> SchemaRead<'de, C> for OrderedMap<K, V, S> where
    K::Dst: Hash + Eq,
 {
    type Dst = OrderedMap<K::Dst, V::Dst, S>;

    open spec fn dst_val(dst: &OrderedMap<K::Dst, V::Dst, S>) -> Seq<(K::Val, V::Val)> {
        entry_vals::<K, V, C>(dst.entries())
    }

    open spec fn dec(inp: Input) -> Result<(Seq<(K::Val, V::Val)>, Input), Fault> {
        match kv_dec::<K, V, C::LengthEncoding, AllowDuplicateKeys, C>(inp) {
            Ok((es, rest)) => Ok((in_order(es), rest)),
            Err(e) => Err(e),
        }
    }

    open spec fn read_meta() -> TypeMeta {
        TypeMeta::Dynamic
    }

    open spec fn read_lawful() -> bool {
        &&& K::read_lawful()
        &&& V::read_lawful()
        &&& key_injective::<K, C>()
        &&& index_model::<K::Dst, S>()
    }

    proof fn lemma_dec(inp: Input) {
        lemma_kv_dec::<K, V, C::LengthEncoding, AllowDuplicateKeys, C>(inp);
    }

    fn type_meta() -> (m: TypeMeta) {
        TypeMeta::Dynamic
    }

    fn get<R: Reader<'de>>(reader: &mut R) -> (r: ReadResult<OrderedMap<K::Dst, V::Dst, S>>) {
        let r = read_kv_seq::<K, V, C::LengthEncoding, AllowDuplicateKeys, C, R, OrderedMap<K::Dst, V::Dst, S>>(reader);
        proof {
            if <Self as SchemaRead<'de, C>>::read_lawful() {
                if let Ok((es, rest)) = kv_dec::<K, V, C::LengthEncoding, AllowDuplicateKeys, C>(
                    old(reader).input(),
                ) {
                    let m = r->Ok_0;
                    assert(made_of_entries::<K, V, C, OrderedMap<K::Dst, V::Dst, S>>(m, es));
                    let xs = choose|xs: Seq<(K::Dst, V::Dst)>| #[trigger]
                        m.holds(xs) && entry_vals::<K, V, C>(xs) == es;
                    lemma_in_order_vals::<K, V, C>(xs);
                }
            }
        }
        r
    }
}

impl<
    'de,
    C: Config,
    K: RoundTrip<'de, C>,
    V: RoundTrip<'de, C>,
    S: BuildHasher + Default,
> RoundTrip<'de, C> for OrderedMap<K, V, S> where
    K::Dst: Hash + Eq,
 {
    open spec fn round_trips() -> bool {
        map_round_trips::<K, V, C>()
    }

    open spec fn src_valid(src: &OrderedMap<K::Src, V::Src, S>) -> bool {
        &&& src.entries().len() <= usize::MAX
        &&& distinct_keys(src.entries())
        &&& forall|i: int|
            0 <= i < src.entries().len() ==> K::src_valid(&(#[trigger] src.entries()[i]).0)
                && V::src_valid(&src.entries()[i].1)
    }

    open spec fn needs_backing() -> bool {
        K::needs_backing() || V::needs_backing()
    }

    proof fn lemma_round_trip(src: &OrderedMap<K::Src, V::Src, S>, rest: Input) {
        let es = src.entries();
        lemma_distinct_enumerates(es);
        lemma_map_round_trip::<K, V, C::LengthEncoding, AllowDuplicateKeys, C>(
            es,
            map_of(es),
            es.len(),
            rest,
        );
        let vs = src_entry_vals::<K, V, C>(es);
        assert(distinct_keys(vs)) by {
            assert forall|i: int, j: int| 0 <= i < j < vs.len() implies (#[trigger] vs[i]).0 != (
            #[trigger] vs[j]).0 by {
                if K::src_val(&es[i].0) == K::src_val(&es[j].0) {
                    assert(es[i].0 == es[j].0);
                }
            }
        }
        law_distinct_entries_keep_their_order(vs);
    }
}

/// An [`OrderedSet`] with the length encoding `Len` and the policy `Dup` for repeated elements.
pub struct OrderedSetSeq<K, Len, Dup = AllowDuplicateKeys, S = RandomState>(
    PhantomData<(K, Len, Dup, S)>,
);

impl<K: Model, Len, Dup, S> Model for OrderedSetSeq<K, Len, Dup, S> {
    /// The elements, in order.
    type Val = Seq<K::Val>;
}

/// The elements are written in order. On reading, a repeated element keeps its first place, or is an
/// error if the policy says so.
impl<
    C: ConfigCore,
    K: SchemaWrite<C>,
    S,
    Len: SeqLen<C>,
    Dup,
> SchemaWrite<C> for OrderedSetSeq<K, Len, Dup, S> {
    type Src = OrderedSet<K::Src, S>;

    open spec fn src_val(src: &OrderedSet<K::Src, S>) -> Seq<K::Val> {
        src_vals::<K, C>(src.elems())
    }

    open spec fn emit(src: &OrderedSet<K::Src, S>) -> Emit {
        seq_emit_checked::<K, Len, C>(src.elems())
    }

    open spec fn size_err(src: &OrderedSet<K::Src, S>) -> Option<WriteError> {
        seq_size_err::<K, Len, C>(src.elems())
    }

    open spec fn write_meta() -> TypeMeta {
        TypeMeta::Dynamic
    }

    open spec fn write_lawful() -> bool {
        K::write_lawful()
    }

    proof fn lemma_emit(src: &OrderedSet<K::Src, S>) {
        lemma_seq_emit::<K, Len, C>(src.elems());
    }

    fn type_meta() -> (m: TypeMeta) {
        TypeMeta::Dynamic
    }

    fn size_of(src: &OrderedSet<K::Src, S>) -> (r: WriteResult<usize>) {
        proof {
            lemma_seq_emit::<K, Len, C>(src.elems());
            lemma_emit_all::<K, C>(src.elems());
        }
        let refs = walk_set(src);
        let len: usize = refs.len();
        size_of_elem_iter::<K, Len, C, _, _>(len, refs.into_iter())
    }

    /// No two elements of what is written are the same.
    fn write<W: Writer>(writer: &mut W, src: &OrderedSet<K::Src, S>) -> (r: WriteResult<()>)
        ensures
            limit_kept::<C, K::Src>(
                src.elems().len(),
                old(writer).output(),
                final(writer).output(),
                r,
            ),
            <Self as SchemaWrite<C>>::write_lawful() && src.lawful() ==> src.elems().no_duplicates(),
    {
        proof {
            lemma_emit_first::<K, C>(src.elems(), src.elems().len());
        }
        let refs = walk_set(src);
        let len: usize = refs.len();
        write_elem_iter_prealloc_check::<K, Len, C, W, _, _>(writer, len, refs.into_iter())
    }
}

impl<
    'de,
    C: ConfigCore,
    K: SchemaRead<'de, C>,
    S: BuildHasher + Default,
    Len: SeqLen<C>,
    Dup: DuplicateKeyPolicy,
> SchemaRead<'de, C> for OrderedSetSeq<K, Len, Dup, S> where
    K::Dst: Hash + Eq,
 {
    type Dst = OrderedSet<K::Dst, S>;

    open spec fn dst_val(dst: &OrderedSet<K::Dst, S>) -> Seq<K::Val> {
        dst_vals::<K, C>(dst.elems())
    }

    open spec fn dec(inp: Input) -> Result<(Seq<K::Val>, Input), Fault> {
        match elem_dec::<K, Len, Dup, C>(inp) {
            Ok((ks, rest)) => Ok((set_in_order(ks), rest)),
            Err(e) => Err(e),
        }
    }

    open spec fn read_meta() -> TypeMeta {
        TypeMeta::Dynamic
    }

    open spec fn read_lawful() -> bool {
        &&& K::read_lawful()
        &&& key_injective::<K, C>()
        &&& index_model::<K::Dst, S>()
    }

    proof fn lemma_dec(inp: Input) {
        lemma_elem_dec::<K, Len, Dup, C>(inp);
    }

    fn type_meta() -> (m: TypeMeta) {
        TypeMeta::Dynamic
    }

    fn get<R: Reader<'de>>(reader: &mut R) -> (r: ReadResult<OrderedSet<K::Dst, S>>) {
        let r = read_elem_seq::<K, Len, Dup, C, R, OrderedSet<K::Dst, S>>(reader);
        proof {
            if <Self as SchemaRead<'de, C>>::read_lawful() {
                if let Ok((ks, rest)) = elem_dec::<K, Len, Dup, C>(old(reader).input()) {
                    let s = r->Ok_0;
                    assert(made_of_elems::<K, C, OrderedSet<K::Dst, S>>(s, ks));
                    let xs = choose|xs: Seq<K::Dst>| #[trigger]
                        s.holds(xs) && dst_vals::<K, C>(xs) == ks;
                    lemma_set_in_order_vals::<K, C>(xs);
                }
            }
        }
        r
    }
}

impl<
    'de,
    C: ConfigCore,
    K: RoundTrip<'de, C>,
    S: BuildHasher + Default,
    Len: SeqLen<C>,
    Dup: DuplicateKeyPolicy,
> RoundTrip<'de, C> for OrderedSetSeq<K, Len, Dup, S> where
    K::Dst: Hash + Eq,
 {
    open spec fn round_trips() -> bool {
        set_round_trips::<K, C>()
    }

    open spec fn src_valid(src: &OrderedSet<K::Src, S>) -> bool {
        &&& src.elems().len() <= usize::MAX
        &&& src.elems().no_duplicates()
        &&& forall|i: int|
            0 <= i < src.elems().len() ==> K::src_valid(&#[trigger] src.elems()[i])
    }

    open spec fn needs_backing() -> bool {
        K::needs_backing()
    }

    proof fn lemma_round_trip(src: &OrderedSet<K::Src, S>, rest: Input) {
        let ks = src.elems();
        law_iter_encodes_like_a_vector::<K, Len, C>(ks);
        lemma_set_round_trip::<K, Len, Dup, C>(ks, ks.to_set(), ks.len(), rest);
        let vs = src_vals::<K, C>(ks);
        assert(vs.no_duplicates()) by {
            assert forall|i: int, j: int| 0 <= i < vs.len() && 0 <= j < vs.len() && i != j implies vs[i]
                != vs[j] by {
                if K::src_val(&ks[i]) == K::src_val(&ks[j]) {
                    assert(ks[i] == ks[j]);
                }
            }
        }
        law_distinct_elements_keep_their_order(vs);
    }
}

impl<K: Model, S> Model for OrderedSet<K, S> {
    /// The elements, in order.
    type Val = Seq<K::Val>;
}

/// As [`OrderedSetSeq`], with the length encoding of the configuration; repeated elements are
/// allowed.
impl<C: Config, K: SchemaWrite<C>, S> SchemaWrite<C> for OrderedSet<K, S> {
    type Src = OrderedSet<K::Src, S>;

    open spec fn src_val(src: &OrderedSet<K::Src, S>) -> Seq<K::Val> {
        src_vals::<K, C>(src.elems())
    }

    open spec fn emit(src: &OrderedSet<K::Src, S>) -> Emit {
        seq_emit_checked::<K, C::LengthEncoding, C>(src.elems())
    }

    open spec fn size_err(src: &OrderedSet<K::Src, S>) -> Option<WriteError> {
        seq_size_err::<K, C::LengthEncoding, C>(src.elems())
    }

    open spec fn write_meta() -> TypeMeta {
        TypeMeta::Dynamic
    }

    open spec fn write_lawful() -> bool {
        K::write_lawful()
    }

    proof fn lemma_emit(src: &OrderedSet<K::Src, S>) {
        lemma_seq_emit::<K, C::LengthEncoding, C>(src.elems());
    }

    fn type_meta() -> (m: TypeMeta) {
        TypeMeta::Dynamic
    }

    fn size_of(src: &OrderedSet<K::Src, S>) -> (r: WriteResult<usize>) {
        proof {
            lemma_seq_emit::<K, C::LengthEncoding, C>(src.elems());
            lemma_emit_all::<K, C>(src.elems());
        }
        let refs = walk_set(src);
        let len: usize = refs.len();
        size_of_elem_iter::<K, C::LengthEncoding, C, _, _>(len, refs.into_iter())
    }

    /// No two elements of what is written are the same.
    fn write<W: Writer>(writer: &mut W, src: &OrderedSet<K::Src, S>) -> (r: WriteResult<()>)
        ensures
            limit_kept::<C, K::Src>(
                src.elems().len(),
                old(writer).output(),
                final(writer).output(),
                r,
            ),
            <Self as SchemaWrite<C>>::write_lawful() && src.lawful() ==> src.elems().no_duplicates(),
    {
        proof {
            lemma_emit_first::<K, C>(src.elems(), src.elems().len());
        }
        let refs = walk_set(src);
        let len: usize = refs.len();
        write_elem_iter_prealloc_check::<K, C::LengthEncoding, C, W, _, _>(
            writer,
            len,
            refs.into_iter(),
        )
    }
}

impl<
    'de,
    C: Config,
    K: SchemaRead<'de, C>,
    S: BuildHasher + Default,
> SchemaRead<'de, C> for OrderedSet<K, S> where
    K::Dst: Hash + Eq,
 {
    type Dst = OrderedSet<K::Dst, S>;

    open spec fn dst_val(dst: &OrderedSet<K::Dst, S>) -> Seq<K::Val> {
        dst_vals::<K, C>(dst.elems())
    }

    open spec fn dec(inp: Input) -> Result<(Seq<K::Val>, Input), Fault> {
        match elem_dec::<K, C::LengthEncoding, AllowDuplicateKeys, C>(inp) {
            Ok((ks, rest)) => Ok((set_in_order(ks), rest)),
            Err(e) => Err(e),
        }
    }

    open spec fn read_meta() -> TypeMeta {
        TypeMeta::Dynamic
    }

    open spec fn read_lawful() -> bool {
        &&& K::read_lawful()
        &&& key_injective::<K, C>()
        &&& index_model::<K::Dst, S>()
    }

    proof fn lemma_dec(inp: Input) {
        lemma_elem_dec::<K, C::LengthEncoding, AllowDuplicateKeys, C>(inp);
    }

    fn type_meta() -> (m: TypeMeta) {
        TypeMeta::Dynamic
    }

    fn get<R: Reader<'de>>(reader: &mut R) -> (r: ReadResult<OrderedSet<K::Dst, S>>) {
        let r = read_elem_seq::<K, C::LengthEncoding, AllowDuplicateKeys, C, R, OrderedSet<K::Dst, S>>(reader);
        proof {
            if <Self as SchemaRead<'de, C>>::read_lawful() {
                if let Ok((ks, rest)) = elem_dec::<K, C::LengthEncoding, AllowDuplicateKeys, C>(
                    old(reader).input(),
                ) {
                    let s = r->Ok_0;
                    assert(made_of_elems::<K, C, OrderedSet<K::Dst, S>>(s, ks));
                    let xs = choose|xs: Seq<K::Dst>| #[trigger]
                        s.holds(xs) && dst_vals::<K, C>(xs) == ks;
                    lemma_set_in_order_vals::<K, C>(xs);
                }
            }
        }
        r
    }
}

impl<
    'de,
    C: Config,
    K: RoundTrip<'de, C>,
    S: BuildHasher + Default,
> RoundTrip<'de, C> for OrderedSet<K, S> where
    K::Dst: Hash + Eq,
 {
    open spec fn round_trips() -> bool {
        set_round_trips::<K, C>()
    }

    open spec fn src_valid(src: &OrderedSet<K::Src, S>) -> bool {
        &&& src.elems().len() <= usize::MAX
        &&& src.elems().no_duplicates()
        &&& forall|i: int|
            0 <= i < src.elems().len() ==> K::src_valid(&#[trigger] src.elems()[i])
    }

    open spec fn needs_backing() -> bool {
        K::needs_backing()
    }

    proof fn lemma_round_trip(src: &OrderedSet<K::Src, S>, rest: Input) {
        let ks = src.elems();
        law_iter_encodes_like_a_vector::<K, C::LengthEncoding, C>(ks);
        lemma_set_round_trip::<K, C::LengthEncoding, AllowDuplicateKeys, C>(
            ks,
            ks.to_set(),
            ks.len(),
            rest,
        );
        let vs = src_vals::<K, C>(ks);
        assert(vs.no_duplicates()) by {
            assert forall|i: int, j: int| 0 <= i < vs.len() && 0 <= j < vs.len() && i != j implies vs[i]
                != vs[j] by {
                if K::src_val(&ks[i]) == K::src_val(&ks[j]) {
                    assert(ks[i] == ks[j]);
                }
            }
        }
        law_distinct_elements_keep_their_order(vs);
    }
}

} // verus!
