//! Collections of any kind that can be walked through and gathered.
use crate::config::ConfigCore;
use crate::error::{ReadResult, WriteError, WriteResult};
use crate::io::{Reader, Writer};
use crate::len::{limit_kept, SeqLen};
use crate::model::{Emit, Fault, Input};
use crate::schema::containers::decode::dst_vals;
use crate::schema::containers::iter::{
    encode_from_iter_prealloc_check, law_iter_encodes_like_a_vector, Walk, WalkPairs,
};
use crate::schema::containers::seq::{lemma_seq_dec, lemma_seq_emit, read_seq, seq_dec};
use crate::schema::elems::{
    kv_iter_emit_checked, kv_iter_size, kv_iter_size_err, kv_size_err_all, lemma_emit_all,
    lemma_emit_exactly, seq_emit_checked, seq_size_err, size_err_all, size_of_elem_iter,
    size_of_kv_iter, write_kv_iter_prealloc_check,
};
use crate::schema::{Model, RoundTrip, SchemaRead, SchemaWrite, TypeMeta};
use core::marker::PhantomData;
use vstd::prelude::*;
use vstd::std_specs::iter::IteratorSpec;

verus! {

broadcast use {
    crate::model::lemma_follows_transitive,
    crate::model::lemma_follows_reflexive,
    crate::schema::elems::lemma_lent_refs,
};

/// A collection that can be written item by item.
pub trait WriteItems<C: ConfigCore>: Model {
    /// The schema of an item; of a map, that of a key and a value.
    type Item: SchemaWrite<C>;

    /// What is written.
    type Written;

    /// Whether the collection tells its items apart as it should.
    spec fn walk_ok() -> bool;

    /// The items of `coll`, in the order in which they are written.
    spec fn items_of(coll: &Self::Written) -> Seq<<Self::Item as SchemaWrite<C>>::Src>;

    /// Whether these are all that `coll` holds: each element of a set, or entry of a map, once.
    spec fn lists_all(coll: &Self::Written) -> bool;

    /// The value that `coll` holds.
    spec fn written_val(coll: &Self::Written) -> Self::Val;

    /// The number of bytes of `coll`.
    fn size_items<Len: SeqLen<C>>(coll: &Self::Written) -> (r: WriteResult<usize>)
        ensures
            Self::walk_ok() && <Self::Item as SchemaWrite<C>>::write_lawful() && seq_emit_checked::<
                Self::Item,
                Len,
                C,
            >(Self::items_of(coll)).weight <= usize::MAX ==> match seq_size_err::<
                Self::Item,
                Len,
                C,
            >(Self::items_of(coll)) {
                Some(e) => r == Err::<usize, WriteError>(e),
                None => r is Ok && r->Ok_0 == seq_emit_checked::<Self::Item, Len, C>(
                    Self::items_of(coll),
                ).weight,
            },
    ;

    /// Writes the number of the items, and the items.
    fn write_items<Len: SeqLen<C>, W: Writer>(writer: &mut W, coll: &Self::Written) -> (r:
        WriteResult<()>)
        ensures
            Self::walk_ok() ==> Self::lists_all(coll),
            Self::walk_ok() ==> limit_kept::<C, <Self::Item as SchemaWrite<C>>::Src>(
                Self::items_of(coll).len(),
                old(writer).output(),
                final(writer).output(),
                r,
            ),
            Self::walk_ok() && <Self::Item as SchemaWrite<C>>::write_lawful() && seq_emit_checked::<
                Self::Item,
                Len,
                C,
            >(Self::items_of(coll)).weight <= usize::MAX ==> seq_emit_checked::<Self::Item, Len, C>(
                Self::items_of(coll),
            ).wrote(old(writer).output(), final(writer).output(), r),
    ;
}

/// A collection that can be made of items that are read one after the other.
pub trait ReadItems<'de, C: ConfigCore>: Model {
    /// The schema of an item; of a map, that of a key and a value.
    type Item: SchemaRead<'de, C>;

    /// What is read.
    type Gathered;

    /// Whether the collection tells its items apart as it should.
    spec fn gather_ok() -> bool;

    /// The value of the collection that items with the values `vals` make.
    spec fn val_of(vals: Seq<<Self::Item as Model>::Val>) -> Self::Val;

    /// The value that `coll` holds.
    spec fn gathered_val(coll: &Self::Gathered) -> Self::Val;

    /// The collection that `items` make.
    fn from_items(items: std::vec::Vec<<Self::Item as SchemaRead<'de, C>>::Dst>) -> (coll:
        Self::Gathered)
        ensures
            Self::gather_ok() ==> Self::gathered_val(&coll) == Self::val_of(
                dst_vals::<Self::Item, C>(items@),
            ),
    ;
}

/// A collection of which reading gives back what was written.
pub trait RoundTripItems<'de, C: ConfigCore>: WriteItems<C> + ReadItems<'de, C> {
    /// What the types involved have to satisfy.
    spec fn items_round_trip() -> bool;

    /// What is assumed of `coll`: that a walk comes by each of its items once.
    spec fn items_valid(coll: &Self::Written) -> bool;

    /// Whether the items are read in place.
    spec fn items_need_backing() -> bool;

    /// Reading gives back the value that was written, and leaves the bytes after it.
    proof fn lemma_items_round_trip<Len: SeqLen<C>>(coll: &Self::Written, rest: Input)
        requires
            Self::items_round_trip(),
            Self::items_valid(coll),
            Self::items_need_backing() ==> rest.backing,
            seq_emit_checked::<<Self as WriteItems<C>>::Item, Len, C>(Self::items_of(coll)).ok(),
            seq_emit_checked::<<Self as WriteItems<C>>::Item, Len, C>(Self::items_of(coll)).weight
                <= usize::MAX,
        ensures
            seq_dec::<<Self as ReadItems<'de, C>>::Item, Len, C>(
                rest.prepend(
                    seq_emit_checked::<<Self as WriteItems<C>>::Item, Len, C>(
                        Self::items_of(coll),
                    ).bytes,
                ),
            ) matches Ok((vals, left)) && left == rest && Self::val_of(vals) == Self::written_val(
                coll,
            ),
    ;
}

/// The number of bytes of a collection that is walked through.
pub fn size_of_walked<T, Len, C, L>(coll: &L) -> (r: WriteResult<usize>) where
    C: ConfigCore,
    Len: SeqLen<C>,
    T: SchemaWrite<C>,
    L: Walk<Item = T::Src>,

    ensures
        L::walk_lawful() && T::write_lawful() && seq_emit_checked::<T, Len, C>(coll.items()).weight
            <= usize::MAX ==> match seq_size_err::<T, Len, C>(coll.items()) {
            Some(e) => r == Err::<usize, WriteError>(e),
            None => r is Ok && r->Ok_0 == seq_emit_checked::<T, Len, C>(coll.items()).weight,
        },
{
    let refs = coll.walk();
    proof {
        lemma_seq_emit::<T, Len, C>(coll.items());
        lemma_emit_all::<T, C>(coll.items());
    }
    let len: usize = refs.len();
    size_of_elem_iter::<T, Len, C, _, _>(len, refs.into_iter())
}

/// Writes a collection that is walked through.
pub fn write_walked<T, Len, C, W, L>(writer: &mut W, coll: &L) -> (r: WriteResult<()>) where
    C: ConfigCore,
    Len: SeqLen<C>,
    T: SchemaWrite<C>,
    W: Writer,
    L: Walk<Item = T::Src>,

    ensures
        L::walk_lawful() ==> coll.walks_all(),
        L::walk_lawful() ==> limit_kept::<C, T::Src>(
            coll.items().len(),
            old(writer).output(),
            final(writer).output(),
            r,
        ),
        L::walk_lawful() && T::write_lawful() && seq_emit_checked::<T, Len, C>(coll.items()).weight
            <= usize::MAX ==> seq_emit_checked::<T, Len, C>(coll.items()).wrote(
            old(writer).output(),
            final(writer).output(),
            r,
        ),
{
    let refs = coll.walk();
    proof {
        law_iter_encodes_like_a_vector::<T, Len, C>(coll.items());
    }
    let len: usize = refs.len();
    encode_from_iter_prealloc_check::<T, Len, C, W, _, _>(writer, len, refs.into_iter())
}

/// A pair has a size exactly if a key and a value have.
proof fn lemma_pair_size_err_all<K: SchemaWrite<C>, V: SchemaWrite<C>, C: ConfigCore>(
    s: Seq<(K::Src, V::Src)>,
)
    ensures
        <(K, V) as SchemaWrite<C>>::write_meta() is Dynamic ==> size_err_all::<(K, V), C>(s)
            == kv_size_err_all::<K, V, C>(s),
    decreases s.len(),
{
    if s.len() > 0 {
        lemma_pair_size_err_all::<K, V, C>(s.drop_last());
    }
}

/// The pairs of a map are written as a sequence of them.
pub proof fn lemma_pairs_are_a_sequence<
    K: SchemaWrite<C>,
    V: SchemaWrite<C>,
    Len: SeqLen<C>,
    C: ConfigCore,
>(s: Seq<(K::Src, V::Src)>)
    ensures
        kv_iter_emit_checked::<K, V, Len, C>(s, s.len()) == seq_emit_checked::<(K, V), Len, C>(s),
        kv_iter_size_err::<K, V, Len, C>(s, s.len()) == seq_size_err::<(K, V), Len, C>(s),
        kv_iter_size::<K, V, Len, C>(s, s.len()) == seq_emit_checked::<(K, V), Len, C>(s).weight,
{
    lemma_emit_exactly::<K, V, C>(s, s.len());
    lemma_seq_emit::<(K, V), Len, C>(s);
    lemma_emit_all::<(K, V), C>(s);
    lemma_pair_size_err_all::<K, V, C>(s);
}

/// The number of bytes of a collection of pairs that is walked through.
pub fn size_of_walked_pairs<K, V, Len, C, L>(coll: &L) -> (r: WriteResult<usize>) where
    C: ConfigCore,
    Len: SeqLen<C>,
    K: SchemaWrite<C>,
    V: SchemaWrite<C>,
    L: WalkPairs<Key = K::Src, Value = V::Src>,

    ensures
        L::walk_lawful() && K::write_lawful() && V::write_lawful() && seq_emit_checked::<
            (K, V),
            Len,
            C,
        >(coll.pairs()).weight <= usize::MAX ==> match seq_size_err::<(K, V), Len, C>(
            coll.pairs(),
        ) {
            Some(e) => r == Err::<usize, WriteError>(e),
            None => r is Ok && r->Ok_0 == seq_emit_checked::<(K, V), Len, C>(coll.pairs()).weight,
        },
{
    let refs = coll.walk_pairs();
    proof {
        lemma_pairs_are_a_sequence::<K, V, Len, C>(coll.pairs());
    }
    let len: usize = refs.len();
    size_of_kv_iter::<K, V, Len, C, _>(len, refs.into_iter())
}

/// Writes a collection of pairs that is walked through.
pub fn write_walked_pairs<K, V, Len, C, W, L>(writer: &mut W, coll: &L) -> (r: WriteResult<
    (),
>) where
    C: ConfigCore,
    Len: SeqLen<C>,
    K: SchemaWrite<C>,
    V: SchemaWrite<C>,
    W: Writer,
    L: WalkPairs<Key = K::Src, Value = V::Src>,

    ensures
        L::walk_lawful() ==> coll.walks_all(),
        L::walk_lawful() ==> limit_kept::<C, (K::Src, V::Src)>(
            coll.pairs().len(),
            old(writer).output(),
            final(writer).output(),
            r,
        ),
        L::walk_lawful() && K::write_lawful() && V::write_lawful() && seq_emit_checked::<
            (K, V),
            Len,
            C,
        >(coll.pairs()).weight <= usize::MAX ==> seq_emit_checked::<(K, V), Len, C>(
            coll.pairs(),
        ).wrote(old(writer).output(), final(writer).output(), r),
{
    let refs = coll.walk_pairs();
    proof {
        lemma_pairs_are_a_sequence::<K, V, Len, C>(coll.pairs());
    }
    let len: usize = refs.len();
    write_kv_iter_prealloc_check::<K, V, Len, C, W, _>(writer, len, refs.into_iter())
}

/// A collection of any type that can be written and made item by item, with the length encoding
/// `Len`. It is laid out as a vector of its items, a map as a vector of pairs. On reading, the
/// items are put in one after the other.
pub struct FromIntoIterator<Coll, Len>(PhantomData<Coll>, PhantomData<Len>);

impl<Coll: Model, Len> Model for FromIntoIterator<Coll, Len> {
    type Val = Coll::Val;
}

impl<C: ConfigCore, Coll: WriteItems<C>, Len: SeqLen<C>> SchemaWrite<C> for FromIntoIterator<
    Coll,
    Len,
> {
    type Src = Coll::Written;

    open spec fn src_val(src: &Coll::Written) -> Coll::Val {
        Coll::written_val(src)
    }

    open spec fn emit(src: &Coll::Written) -> Emit {
        seq_emit_checked::<Coll::Item, Len, C>(Coll::items_of(src))
    }

    open spec fn size_err(src: &Coll::Written) -> Option<WriteError> {
        seq_size_err::<Coll::Item, Len, C>(Coll::items_of(src))
    }

    open spec fn write_meta() -> TypeMeta {
        TypeMeta::Dynamic
    }

    open spec fn write_lawful() -> bool {
        <Coll::Item as SchemaWrite<C>>::write_lawful() && Coll::walk_ok()
    }

    proof fn lemma_emit(src: &Coll::Written) {
        lemma_seq_emit::<Coll::Item, Len, C>(Coll::items_of(src));
    }

    fn type_meta() -> (m: TypeMeta) {
        TypeMeta::Dynamic
    }

    fn size_of(src: &Coll::Written) -> (r: WriteResult<usize>) {
        Coll::size_items::<Len>(src)
    }

    fn write<W: Writer>(writer: &mut W, src: &Coll::Written) -> (r: WriteResult<()>)
        ensures
            <Self as SchemaWrite<C>>::write_lawful() ==> Coll::lists_all(src),
            <Self as SchemaWrite<C>>::write_lawful() ==> limit_kept::<
                C,
                <Coll::Item as SchemaWrite<C>>::Src,
            >(
                Coll::items_of(src).len(),
                old(writer).output(),
                final(writer).output(),
                r,
            ),
    {
        Coll::write_items::<Len, W>(writer, src)
    }
}

impl<
    'de,
    C: ConfigCore,
    Coll: ReadItems<'de, C>,
    Len: SeqLen<C>,
> SchemaRead<'de, C> for FromIntoIterator<Coll, Len> {
    type Dst = Coll::Gathered;

    open spec fn dst_val(dst: &Coll::Gathered) -> Coll::Val {
        Coll::gathered_val(dst)
    }

    open spec fn dec(inp: Input) -> Result<(Coll::Val, Input), Fault> {
        match seq_dec::<Coll::Item, Len, C>(inp) {
            Ok((vals, rest)) => Ok((Coll::val_of(vals), rest)),
            Err(e) => Err(e),
        }
    }

    open spec fn read_meta() -> TypeMeta {
        TypeMeta::Dynamic
    }

    open spec fn read_lawful() -> bool {
        <Coll::Item as SchemaRead<'de, C>>::read_lawful() && Coll::gather_ok()
    }

    proof fn lemma_dec(inp: Input) {
        lemma_seq_dec::<Coll::Item, Len, C>(inp);
    }

    fn type_meta() -> (m: TypeMeta) {
        TypeMeta::Dynamic
    }

    fn get<R: Reader<'de>>(reader: &mut R) -> (r: ReadResult<Coll::Gathered>) {
        let items = read_seq::<Coll::Item, Len, C, R>(reader)?;
        Ok(Coll::from_items(items))
    }
}

impl<
    'de,
    C: ConfigCore,
    Coll: RoundTripItems<'de, C>,
    Len: SeqLen<C>,
> RoundTrip<'de, C> for FromIntoIterator<Coll, Len> {
    open spec fn round_trips() -> bool {
        Coll::items_round_trip()
    }

    open spec fn src_valid(src: &Coll::Written) -> bool {
        Coll::items_valid(src)
    }

    open spec fn needs_backing() -> bool {
        Coll::items_need_backing()
    }

    proof fn lemma_round_trip(src: &Coll::Written, rest: Input) {
        Coll::lemma_items_round_trip::<Len>(src, rest);
    }
}

} // verus!
