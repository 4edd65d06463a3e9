//! Heaps: their length, and their items in the order in which they are kept.
use crate::config::{Config, ConfigCore};
use crate::error::{ReadResult, WriteError, WriteResult};
use crate::io::{Reader, Writer};
use crate::len::{limit_kept, SeqLen};
use crate::model::{Emit, Fault, Input};
use crate::schema::containers::collections::first_of;
use crate::schema::containers::decode::{all_valid, dst_vals, src_vals};
use crate::schema::containers::heap::{lemma_image_multiset, MaxHeap, Ranked};
use crate::schema::containers::seq::{
    lemma_seq_dec, lemma_seq_emit, lemma_seq_round_trip, read_seq, seq_dec, seq_round_trips,
};
use crate::schema::containers::iter::{Gather, Walk};
use crate::schema::containers::walked::{
    size_of_walked, write_walked, ReadItems, RoundTripItems, WriteItems,
};
use crate::schema::elems::{
    seq_emit_checked, seq_size_err, size_of_elem_slice, write_elem_slice_prealloc_check,
};
use crate::schema::{Model, RoundTrip, SchemaRead, SchemaWrite, TypeMeta};
use core::marker::PhantomData;
use vstd::multiset::Multiset;
use vstd::prelude::*;

verus! {

broadcast use {
    crate::model::lemma_follows_transitive,
    crate::model::lemma_follows_reflexive,
};

/// The same items in another order hold the same values in another order.
proof fn lemma_heap_vals<'de, T: SchemaRead<'de, C>, C: ConfigCore>(s: Seq<T::Dst>, t: Seq<T::Dst>)
    requires
        s.to_multiset() == t.to_multiset(),
    ensures
        dst_vals::<T, C>(s).to_multiset() == dst_vals::<T, C>(t).to_multiset(),
{
    let f = |d: T::Dst| T::dst_val(&d);
    lemma_image_multiset(s, t, f);
    assert(s.map_values(f) =~= dst_vals::<T, C>(s));
    assert(t.map_values(f) =~= dst_vals::<T, C>(t));
}

/// A [`MaxHeap`] with the length encoding `Len`.
pub struct BinaryHeap<T, Len>(PhantomData<Len>, PhantomData<T>);

impl<T: Model, Len> Model for BinaryHeap<T, Len> {
    /// The values, whatever their order.
    type Val = Multiset<T::Val>;
}

/// A heap is read by putting its items in order again.
impl<
    C: ConfigCore,
    T: SchemaWrite<C>,
    Len: SeqLen<C>,
> SchemaWrite<C> for BinaryHeap<T, Len> where T::Src: Ranked {
    type Src = MaxHeap<T::Src>;

    open spec fn src_val(src: &MaxHeap<T::Src>) -> Multiset<T::Val> {
        src_vals::<T, C>(src@).to_multiset()
    }

    open spec fn emit(src: &MaxHeap<T::Src>) -> Emit {
        seq_emit_checked::<T, Len, C>(src@)
    }

    open spec fn size_err(src: &MaxHeap<T::Src>) -> Option<WriteError> {
        seq_size_err::<T, Len, C>(src@)
    }

    open spec fn write_meta() -> TypeMeta {
        TypeMeta::Dynamic
    }

    open spec fn write_lawful() -> bool {
        T::write_lawful()
    }

    proof fn lemma_emit(src: &MaxHeap<T::Src>) {
        lemma_seq_emit::<T, Len, C>(src@);
    }

    fn type_meta() -> (m: TypeMeta) {
        TypeMeta::Dynamic
    }

    fn size_of(src: &MaxHeap<T::Src>) -> (r: WriteResult<usize>) {
        proof {
            lemma_seq_emit::<T, Len, C>(src@);
        }
        size_of_elem_slice::<T, Len, C>(src.as_slice())
    }

    fn write<W: Writer>(writer: &mut W, src: &MaxHeap<T::Src>) -> (r: WriteResult<()>)
        ensures
            limit_kept::<C, T::Src>(
                src@.len(),
                old(writer).output(),
                final(writer).output(),
                r,
            ),
    {
        write_elem_slice_prealloc_check::<T, Len, C, W>(writer, src.as_slice())
    }
}

impl<
    'de,
    C: ConfigCore,
    T: SchemaRead<'de, C>,
    Len: SeqLen<C>,
> SchemaRead<'de, C> for BinaryHeap<T, Len> where T::Dst: Ranked {
    type Dst = MaxHeap<T::Dst>;

    open spec fn dst_val(dst: &MaxHeap<T::Dst>) -> Multiset<T::Val> {
        dst_vals::<T, C>(dst@).to_multiset()
    }

    open spec fn dec(inp: Input) -> Result<(Multiset<T::Val>, Input), Fault> {
        match seq_dec::<T, Len, C>(inp) {
            Ok((vs, rest)) => Ok((vs.to_multiset(), rest)),
            Err(e) => Err(e),
        }
    }

    open spec fn read_meta() -> TypeMeta {
        TypeMeta::Dynamic
    }

    open spec fn read_lawful() -> bool {
        T::read_lawful()
    }

    proof fn lemma_dec(inp: Input) {
        lemma_seq_dec::<T, Len, C>(inp);
    }

    fn type_meta() -> (m: TypeMeta) {
        TypeMeta::Dynamic
    }

    fn get<R: Reader<'de>>(reader: &mut R) -> (r: ReadResult<MaxHeap<T::Dst>>) {
        let items = read_seq::<T, Len, C, R>(reader)?;
        let ghost all = items@;
        let heap = MaxHeap::from_vec(items);
        proof {
            lemma_heap_vals::<T, C>(all, heap@);
        }
        Ok(heap)
    }
}

impl<
    'de,
    C: ConfigCore,
    T: RoundTrip<'de, C>,
    Len: SeqLen<C>,
> RoundTrip<'de, C> for BinaryHeap<T, Len> where
    T::Src: Ranked,
    T::Dst: Ranked,
 {
    open spec fn round_trips() -> bool {
        seq_round_trips::<T, C>()
    }

    open spec fn src_valid(src: &MaxHeap<T::Src>) -> bool {
        all_valid::<T, C>(src@) && src@.len() <= usize::MAX
    }

    open spec fn needs_backing() -> bool {
        T::needs_backing()
    }

    proof fn lemma_round_trip(src: &MaxHeap<T::Src>, rest: Input) {
        lemma_seq_round_trip::<T, Len, C>(src@, rest);
    }
}

impl<T: Model + Ranked> Model for MaxHeap<T> {
    /// The values, whatever their order.
    type Val = Multiset<T::Val>;
}

/// As [`BinaryHeap`], with the length encoding of the configuration.
impl<C: Config, T: SchemaWrite<C> + Ranked> SchemaWrite<C> for MaxHeap<T> where T::Src: Ranked {
    type Src = MaxHeap<T::Src>;

    open spec fn src_val(src: &MaxHeap<T::Src>) -> Multiset<T::Val> {
        src_vals::<T, C>(src@).to_multiset()
    }

    open spec fn emit(src: &MaxHeap<T::Src>) -> Emit {
        seq_emit_checked::<T, C::LengthEncoding, C>(src@)
    }

    open spec fn size_err(src: &MaxHeap<T::Src>) -> Option<WriteError> {
        seq_size_err::<T, C::LengthEncoding, C>(src@)
    }

    open spec fn write_meta() -> TypeMeta {
        TypeMeta::Dynamic
    }

    open spec fn write_lawful() -> bool {
        T::write_lawful()
    }

    proof fn lemma_emit(src: &MaxHeap<T::Src>) {
        lemma_seq_emit::<T, C::LengthEncoding, C>(src@);
    }

    fn type_meta() -> (m: TypeMeta) {
        TypeMeta::Dynamic
    }

    fn size_of(src: &MaxHeap<T::Src>) -> (r: WriteResult<usize>) {
        proof {
            lemma_seq_emit::<T, C::LengthEncoding, C>(src@);
        }
        size_of_elem_slice::<T, C::LengthEncoding, C>(src.as_slice())
    }

    fn write<W: Writer>(writer: &mut W, src: &MaxHeap<T::Src>) -> (r: WriteResult<()>)
        ensures
            limit_kept::<C, T::Src>(
                src@.len(),
                old(writer).output(),
                final(writer).output(),
                r,
            ),
    {
        write_elem_slice_prealloc_check::<T, C::LengthEncoding, C, W>(writer, src.as_slice())
    }
}

impl<
    'de,
    C: Config,
    T: SchemaRead<'de, C> + Ranked,
> SchemaRead<'de, C> for MaxHeap<T> where T::Dst: Ranked {
    type Dst = MaxHeap<T::Dst>;

    open spec fn dst_val(dst: &MaxHeap<T::Dst>) -> Multiset<T::Val> {
        dst_vals::<T, C>(dst@).to_multiset()
    }

    open spec fn dec(inp: Input) -> Result<(Multiset<T::Val>, Input), Fault> {
        match seq_dec::<T, C::LengthEncoding, C>(inp) {
            Ok((vs, rest)) => Ok((vs.to_multiset(), rest)),
            Err(e) => Err(e),
        }
    }

    open spec fn read_meta() -> TypeMeta {
        TypeMeta::Dynamic
    }

    open spec fn read_lawful() -> bool {
        T::read_lawful()
    }

    proof fn lemma_dec(inp: Input) {
        lemma_seq_dec::<T, C::LengthEncoding, C>(inp);
    }

    fn type_meta() -> (m: TypeMeta) {
        TypeMeta::Dynamic
    }

    fn get<R: Reader<'de>>(reader: &mut R) -> (r: ReadResult<MaxHeap<T::Dst>>) {
        let items = read_seq::<T, C::LengthEncoding, C, R>(reader)?;
        let ghost all = items@;
        let heap = MaxHeap::from_vec(items);
        proof {
            lemma_heap_vals::<T, C>(all, heap@);
        }
        Ok(heap)
    }
}

impl<'de, C: Config, T: RoundTrip<'de, C> + Ranked> RoundTrip<'de, C> for MaxHeap<T> where
    T::Src: Ranked,
    T::Dst: Ranked,
 {
    open spec fn round_trips() -> bool {
        seq_round_trips::<T, C>()
    }

    open spec fn src_valid(src: &MaxHeap<T::Src>) -> bool {
        all_valid::<T, C>(src@) && src@.len() <= usize::MAX
    }

    open spec fn needs_backing() -> bool {
        T::needs_backing()
    }

    proof fn lemma_round_trip(src: &MaxHeap<T::Src>, rest: Input) {
        lemma_seq_round_trip::<T, C::LengthEncoding, C>(src@, rest);
    }
}

impl<T: Ranked> Walk for MaxHeap<T> {
    type Item = T;

    open spec fn walk_lawful() -> bool {
        true
    }

    open spec fn items(&self) -> Seq<T> {
        self@
    }

    open spec fn walks_all(&self) -> bool {
        true
    }

    fn walk(&self) -> (refs: std::vec::Vec<&T>) {
        let refs = first_of(self.as_slice().iter(), self.len());
        proof {
            assert(refs@.unref() =~= self@);
        }
        refs
    }
}

impl<T: Ranked> Gather<T> for MaxHeap<T> {
    type Made = Multiset<T>;

    open spec fn lawful() -> bool {
        true
    }

    open spec fn made_of(items: Seq<T>) -> Multiset<T> {
        items.to_multiset()
    }

    open spec fn made(&self) -> Multiset<T> {
        self@.to_multiset()
    }

    fn gather(items: std::vec::Vec<T>) -> (coll: MaxHeap<T>) {
        MaxHeap::from_vec(items)
    }
}

impl<C: ConfigCore, T: SchemaWrite<C> + Ranked> WriteItems<C> for MaxHeap<T> where T::Src: Ranked {
    type Item = T;

    type Written = MaxHeap<T::Src>;

    open spec fn walk_ok() -> bool {
        true
    }

    open spec fn items_of(coll: &MaxHeap<T::Src>) -> Seq<T::Src> {
        coll@
    }

    open spec fn lists_all(coll: &MaxHeap<T::Src>) -> bool {
        true
    }

    open spec fn written_val(coll: &MaxHeap<T::Src>) -> Multiset<T::Val> {
        src_vals::<T, C>(coll@).to_multiset()
    }

    fn size_items<Len: SeqLen<C>>(coll: &MaxHeap<T::Src>) -> (r: WriteResult<usize>) {
        size_of_walked::<T, Len, C, MaxHeap<T::Src>>(coll)
    }

    fn write_items<Len: SeqLen<C>, W: Writer>(
        writer: &mut W,
        coll: &MaxHeap<T::Src>,
    ) -> (r: WriteResult<()>) {
        write_walked::<T, Len, C, W, MaxHeap<T::Src>>(writer, coll)
    }
}

impl<
    'de,
    C: ConfigCore,
    T: SchemaRead<'de, C> + Ranked,
> ReadItems<'de, C> for MaxHeap<T> where T::Dst: Ranked {
    type Item = T;

    type Gathered = MaxHeap<T::Dst>;

    open spec fn gather_ok() -> bool {
        true
    }

    open spec fn val_of(vals: Seq<T::Val>) -> Multiset<T::Val> {
        vals.to_multiset()
    }

    open spec fn gathered_val(coll: &MaxHeap<T::Dst>) -> Multiset<T::Val> {
        dst_vals::<T, C>(coll@).to_multiset()
    }

    fn from_items(items: std::vec::Vec<T::Dst>) -> (coll: MaxHeap<T::Dst>) {
        let ghost all = items@;
        let heap = <MaxHeap<T::Dst> as Gather<T::Dst>>::gather(items);
        proof {
            lemma_heap_vals::<T, C>(all, heap@);
        }
        heap
    }
}

impl<'de, C: ConfigCore, T: RoundTrip<'de, C> + Ranked> RoundTripItems<'de, C> for MaxHeap<T> where
    T::Src: Ranked,
    T::Dst: Ranked,
 {
    open spec fn items_round_trip() -> bool {
        seq_round_trips::<T, C>()
    }

    open spec fn items_valid(coll: &MaxHeap<T::Src>) -> bool {
        all_valid::<T, C>(coll@) && coll@.len() <= usize::MAX
    }

    open spec fn items_need_backing() -> bool {
        T::needs_backing()
    }

    proof fn lemma_items_round_trip<Len: SeqLen<C>>(coll: &MaxHeap<T::Src>, rest: Input) {
        lemma_seq_round_trip::<T, Len, C>(coll@, rest);
    }
}

} // verus!
