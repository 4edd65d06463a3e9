//! Lists that grow at either end.
use crate::config::{Config, ConfigCore};
use crate::error::{ReadResult, WriteError, WriteResult};
use crate::io::{Reader, Writer};
use crate::len::{limit_kept, SeqLen};
use crate::model::{Emit, Fault, Input};
use crate::schema::containers::decode::{all_valid, dst_vals, src_vals};
use crate::schema::containers::seq::{
    deque_from_vec, lemma_seq_dec, lemma_seq_emit, lemma_seq_round_trip, read_seq, seq_dec,
    seq_round_trips, VecDeque,
};
use crate::schema::containers::iter::{Gather, Walk};
use crate::schema::containers::walked::{
    size_of_walked, write_walked, ReadItems, RoundTripItems, WriteItems,
};
use crate::schema::elems::{seq_emit_checked, seq_size_err};
use crate::schema::{Model, RoundTrip, SchemaRead, SchemaWrite, TypeMeta};
use vstd::prelude::*;

verus! {

broadcast use {
    crate::model::lemma_follows_transitive,
    crate::model::lemma_follows_reflexive,
};

/// A list that grows and shrinks at either end.
pub struct LinkedList<T> {
    items: std::collections::VecDeque<T>,
}

impl<T> View for LinkedList<T> {
    /// The items, from front to back.
    type V = Seq<T>;

    closed spec fn view(&self) -> Seq<T> {
        self.items@
    }
}

impl<T> LinkedList<T> {
    /// No items.
    pub fn new() -> (l: LinkedList<T>)
        ensures
            l@ == Seq::<T>::empty(),
    {
        LinkedList { items: std::collections::VecDeque::new() }
    }

    /// The number of items.
    pub fn len(&self) -> (n: usize)
        ensures
            n == self@.len(),
    {
        self.items.len()
    }

    /// Puts `item` behind the others.
    pub fn push_back(&mut self, item: T)
        ensures
            final(self)@ == old(self)@.push(item),
    {
        self.items.push_back(item);
    }

    /// Takes the front item off, if there is any.
    pub fn pop_front(&mut self) -> (r: Option<T>)
        ensures
            old(self)@.len() == 0 ==> r is None && final(self)@ == old(self)@,
            old(self)@.len() > 0 ==> {
                &&& r == Some(old(self)@.first())
                &&& final(self)@ == old(self)@.drop_first()
            },
    {
        let r = self.items.pop_front();
        proof {
            if old(self)@.len() > 0 {
                assert(final(self)@ =~= old(self)@.drop_first());
            }
        }
        r
    }
}

impl<T: Model> Model for LinkedList<T> {
    type Val = Seq<T::Val>;
}

/// A list is laid out as a vector of its items.
impl<C: Config, T: SchemaWrite<C>> SchemaWrite<C> for LinkedList<T> {
    type Src = LinkedList<T::Src>;

    open spec fn src_val(src: &LinkedList<T::Src>) -> Seq<T::Val> {
        src_vals::<T, C>(src@)
    }

    open spec fn emit(src: &LinkedList<T::Src>) -> Emit {
        seq_emit_checked::<T, C::LengthEncoding, C>(src@)
    }

    open spec fn size_err(src: &LinkedList<T::Src>) -> Option<WriteError> {
        seq_size_err::<T, C::LengthEncoding, C>(src@)
    }

    open spec fn write_meta() -> TypeMeta {
        TypeMeta::Dynamic
    }

    open spec fn write_lawful() -> bool {
        T::write_lawful()
    }

    proof fn lemma_emit(src: &LinkedList<T::Src>) {
        lemma_seq_emit::<T, C::LengthEncoding, C>(src@);
    }

    fn type_meta() -> (m: TypeMeta) {
        TypeMeta::Dynamic
    }

    fn size_of(src: &LinkedList<T::Src>) -> (r: WriteResult<usize>) {
        <VecDeque<T, C::LengthEncoding> as SchemaWrite<C>>::size_of(&src.items)
    }

    fn write<W: Writer>(writer: &mut W, src: &LinkedList<T::Src>) -> (r: WriteResult<()>)
        ensures
            limit_kept::<C, T::Src>(
                src@.len(),
                old(writer).output(),
                final(writer).output(),
                r,
            ),
    {
        <VecDeque<T, C::LengthEncoding> as SchemaWrite<C>>::write(writer, &src.items)
    }
}

impl<'de, C: Config, T: SchemaRead<'de, C>> SchemaRead<'de, C> for LinkedList<T> {
    type Dst = LinkedList<T::Dst>;

    open spec fn dst_val(dst: &LinkedList<T::Dst>) -> Seq<T::Val> {
        dst_vals::<T, C>(dst@)
    }

    open spec fn dec(inp: Input) -> Result<(Seq<T::Val>, Input), Fault> {
        seq_dec::<T, C::LengthEncoding, C>(inp)
    }

    open spec fn read_meta() -> TypeMeta {
        TypeMeta::Dynamic
    }

    open spec fn read_lawful() -> bool {
        T::read_lawful()
    }

    proof fn lemma_dec(inp: Input) {
        lemma_seq_dec::<T, C::LengthEncoding, C>(inp);
    }

    fn type_meta() -> (m: TypeMeta) {
        TypeMeta::Dynamic
    }

    fn get<R: Reader<'de>>(reader: &mut R) -> (r: ReadResult<LinkedList<T::Dst>>) {
        let items = read_seq::<T, C::LengthEncoding, C, R>(reader)?;
        Ok(LinkedList { items: deque_from_vec(items) })
    }
}

impl<'de, C: Config, T: RoundTrip<'de, C>> RoundTrip<'de, C> for LinkedList<T> {
    open spec fn round_trips() -> bool {
        seq_round_trips::<T, C>()
    }

    open spec fn src_valid(src: &LinkedList<T::Src>) -> bool {
        all_valid::<T, C>(src@)
    }

    open spec fn needs_backing() -> bool {
        T::needs_backing()
    }

    proof fn lemma_round_trip(src: &LinkedList<T::Src>, rest: Input) {
        assert(src.items@.len() == src.items.len());
        lemma_seq_round_trip::<T, C::LengthEncoding, C>(src@, rest);
    }
}

impl<T> Walk for LinkedList<T> {
    type Item = T;

    open spec fn walk_lawful() -> bool {
        true
    }

    open spec fn items(&self) -> Seq<T> {
        self@
    }

    open spec fn walks_all(&self) -> bool {
        true
    }

    fn walk(&self) -> (refs: std::vec::Vec<&T>) {
        self.items.walk()
    }
}

impl<T> Gather<T> for LinkedList<T> {
    type Made = Seq<T>;

    open spec fn lawful() -> bool {
        true
    }

    open spec fn made_of(items: Seq<T>) -> Seq<T> {
        items
    }

    open spec fn made(&self) -> Seq<T> {
        self@
    }

    fn gather(items: std::vec::Vec<T>) -> (coll: LinkedList<T>) {
        LinkedList { items: deque_from_vec(items) }
    }
}

impl<C: ConfigCore, T: SchemaWrite<C>> WriteItems<C> for LinkedList<T> {
    type Item = T;

    type Written = LinkedList<T::Src>;

    open spec fn walk_ok() -> bool {
        true
    }

    open spec fn items_of(coll: &LinkedList<T::Src>) -> Seq<T::Src> {
        coll@
    }

    open spec fn lists_all(coll: &LinkedList<T::Src>) -> bool {
        true
    }

    open spec fn written_val(coll: &LinkedList<T::Src>) -> Seq<T::Val> {
        src_vals::<T, C>(coll@)
    }

    fn size_items<Len: SeqLen<C>>(coll: &LinkedList<T::Src>) -> (r: WriteResult<usize>) {
        size_of_walked::<T, Len, C, LinkedList<T::Src>>(coll)
    }

    fn write_items<Len: SeqLen<C>, W: Writer>(
        writer: &mut W,
        coll: &LinkedList<T::Src>,
    ) -> (r: WriteResult<()>) {
        write_walked::<T, Len, C, W, LinkedList<T::Src>>(writer, coll)
    }
}

impl<'de, C: ConfigCore, T: SchemaRead<'de, C>> ReadItems<'de, C> for LinkedList<T> {
    type Item = T;

    type Gathered = LinkedList<T::Dst>;

    open spec fn gather_ok() -> bool {
        true
    }

    open spec fn val_of(vals: Seq<T::Val>) -> Seq<T::Val> {
        vals
    }

    open spec fn gathered_val(coll: &LinkedList<T::Dst>) -> Seq<T::Val> {
        dst_vals::<T, C>(coll@)
    }

    fn from_items(items: std::vec::Vec<T::Dst>) -> (coll: LinkedList<T::Dst>) {
        <LinkedList<T::Dst> as Gather<T::Dst>>::gather(items)
    }
}

impl<'de, C: ConfigCore, T: RoundTrip<'de, C>> RoundTripItems<'de, C> for LinkedList<T> {
    open spec fn items_round_trip() -> bool {
        seq_round_trips::<T, C>()
    }

    open spec fn items_valid(coll: &LinkedList<T::Src>) -> bool {
        all_valid::<T, C>(coll@) && coll@.len() <= usize::MAX
    }

    open spec fn items_need_backing() -> bool {
        T::needs_backing()
    }

    proof fn lemma_items_round_trip<Len: SeqLen<C>>(coll: &LinkedList<T::Src>, rest: Input) {
        lemma_seq_round_trip::<T, Len, C>(coll@, rest);
    }
}

} // verus!
