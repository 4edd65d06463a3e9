//! Slices behind a pointer: their length and then their elements.
use crate::config::{Config, ConfigCore};
use crate::error::{ReadResult, WriteError, WriteResult};
use crate::io::{Reader, Writer};
use crate::len::{limit_kept, SeqLen};
use crate::model::{Emit, Fault, Input};
use crate::schema::containers::decode::{all_valid, dst_vals, src_vals};
use crate::schema::containers::seq::{
    lemma_seq_dec, lemma_seq_emit, lemma_seq_round_trip, read_seq, seq_dec, seq_round_trips,
};
use crate::schema::elems::{
    seq_emit_checked, seq_size_err, size_of_elem_slice, write_elem_slice_prealloc_check,
};
use crate::schema::{Model, RoundTrip, SchemaRead, SchemaWrite, TypeMeta};
use core::marker::PhantomData;
use vstd::prelude::*;

verus! {

broadcast use {
    crate::model::lemma_follows_transitive,
    crate::model::lemma_follows_reflexive,
};

/// `Vec::into_boxed_slice`: the same elements, in a box.
#[verifier::external_body]
fn boxed_slice<T>(v: std::vec::Vec<T>) -> (b: std::boxed::Box<[T]>)
    ensures
        b@ == v@,
{
    v.into_boxed_slice()
}

/// `<Rc<[T]> as From<Vec<T>>>::from`: the same elements, counted by references.
#[verifier::external_body]
fn rc_slice<T>(v: std::vec::Vec<T>) -> (b: std::rc::Rc<[T]>)
    ensures
        b@ == v@,
{
    std::rc::Rc::from(v)
}

/// `<Arc<[T]> as From<Vec<T>>>::from`: the same elements, counted by references.
#[verifier::external_body]
fn arc_slice<T>(v: std::vec::Vec<T>) -> (b: std::sync::Arc<[T]>)
    ensures
        b@ == v@,
{
    std::sync::Arc::from(v)
}

/// A boxed slice with the length encoding `Len`.
pub struct Box<T: ?Sized, Len>(PhantomData<T>, PhantomData<Len>);

impl<T: Model, Len> Model for Box<[T], Len> {
    type Val = Seq<T::Val>;
}

/// A boxed slice is laid out as a vector of its elements.
impl<C: ConfigCore, T: SchemaWrite<C>, Len: SeqLen<C>> SchemaWrite<C> for Box<[T], Len> {
    type Src = std::boxed::Box<[T::Src]>;

    open spec fn src_val(src: &std::boxed::Box<[T::Src]>) -> Seq<T::Val> {
        src_vals::<T, C>(src@)
    }

    open spec fn emit(src: &std::boxed::Box<[T::Src]>) -> Emit {
        seq_emit_checked::<T, Len, C>(src@)
    }

    open spec fn size_err(src: &std::boxed::Box<[T::Src]>) -> Option<WriteError> {
        seq_size_err::<T, Len, C>(src@)
    }

    open spec fn write_meta() -> TypeMeta {
        TypeMeta::Dynamic
    }

    open spec fn write_lawful() -> bool {
        T::write_lawful()
    }

    proof fn lemma_emit(src: &std::boxed::Box<[T::Src]>) {
        lemma_seq_emit::<T, Len, C>(src@);
    }

    fn type_meta() -> (m: TypeMeta) {
        TypeMeta::Dynamic
    }

    fn size_of(src: &std::boxed::Box<[T::Src]>) -> (r: WriteResult<usize>) {
        proof {
            lemma_seq_emit::<T, Len, C>(src@);
        }
        size_of_elem_slice::<T, Len, C>(&**src)
    }

    fn write<W: Writer>(writer: &mut W, src: &std::boxed::Box<[T::Src]>) -> (r: WriteResult<()>)
        ensures
            limit_kept::<C, T::Src>(
                src@.len(),
                old(writer).output(),
                final(writer).output(),
                r,
            ),
    {
        write_elem_slice_prealloc_check::<T, Len, C, W>(writer, &**src)
    }
}

impl<
    'de,
    C: ConfigCore,
    T: SchemaRead<'de, C>,
    Len: SeqLen<C>,
> SchemaRead<'de, C> for Box<[T], Len> {
    type Dst = std::boxed::Box<[T::Dst]>;

    open spec fn dst_val(dst: &std::boxed::Box<[T::Dst]>) -> Seq<T::Val> {
        dst_vals::<T, C>(dst@)
    }

    open spec fn dec(inp: Input) -> Result<(Seq<T::Val>, Input), Fault> {
        seq_dec::<T, Len, C>(inp)
    }

    open spec fn read_meta() -> TypeMeta {
        TypeMeta::Dynamic
    }

    open spec fn read_lawful() -> bool {
        T::read_lawful()
    }

    proof fn lemma_dec(inp: Input) {
        lemma_seq_dec::<T, Len, C>(inp);
    }

    fn type_meta() -> (m: TypeMeta) {
        TypeMeta::Dynamic
    }

    fn get<R: Reader<'de>>(reader: &mut R) -> (r: ReadResult<std::boxed::Box<[T::Dst]>>) {
        let v = read_seq::<T, Len, C, R>(reader)?;
        Ok(boxed_slice(v))
    }
}

impl<'de, C: ConfigCore, T: RoundTrip<'de, C>, Len: SeqLen<C>> RoundTrip<'de, C> for Box<[T], Len> {
    open spec fn round_trips() -> bool {
        seq_round_trips::<T, C>()
    }

    open spec fn src_valid(src: &std::boxed::Box<[T::Src]>) -> bool {
        all_valid::<T, C>(src@)
    }

    open spec fn needs_backing() -> bool {
        T::needs_backing()
    }

    proof fn lemma_round_trip(src: &std::boxed::Box<[T::Src]>, rest: Input) {
        let s: &[T::Src] = &**src;
        assert(s@.len() == s.len());
        lemma_seq_round_trip::<T, Len, C>(src@, rest);
    }
}

impl<T: Model> Model for std::boxed::Box<[T]> {
    type Val = Seq<T::Val>;
}

/// As [`Box`], with the length encoding of the configuration.
impl<C: Config, T: SchemaWrite<C>> SchemaWrite<C> for std::boxed::Box<[T]> {
    type Src = std::boxed::Box<[T::Src]>;

    open spec fn src_val(src: &std::boxed::Box<[T::Src]>) -> Seq<T::Val> {
        src_vals::<T, C>(src@)
    }

    open spec fn emit(src: &std::boxed::Box<[T::Src]>) -> Emit {
        seq_emit_checked::<T, C::LengthEncoding, C>(src@)
    }

    open spec fn size_err(src: &std::boxed::Box<[T::Src]>) -> Option<WriteError> {
        seq_size_err::<T, C::LengthEncoding, C>(src@)
    }

    open spec fn write_meta() -> TypeMeta {
        TypeMeta::Dynamic
    }

    open spec fn write_lawful() -> bool {
        T::write_lawful()
    }

    proof fn lemma_emit(src: &std::boxed::Box<[T::Src]>) {
        lemma_seq_emit::<T, C::LengthEncoding, C>(src@);
    }

    fn type_meta() -> (m: TypeMeta) {
        TypeMeta::Dynamic
    }

    fn size_of(src: &std::boxed::Box<[T::Src]>) -> (r: WriteResult<usize>) {
        proof {
            lemma_seq_emit::<T, C::LengthEncoding, C>(src@);
        }
        size_of_elem_slice::<T, C::LengthEncoding, C>(&**src)
    }

    fn write<W: Writer>(writer: &mut W, src: &std::boxed::Box<[T::Src]>) -> (r: WriteResult<()>)
        ensures
            limit_kept::<C, T::Src>(
                src@.len(),
                old(writer).output(),
                final(writer).output(),
                r,
            ),
    {
        write_elem_slice_prealloc_check::<T, C::LengthEncoding, C, W>(writer, &**src)
    }
}

impl<'de, C: Config, T: SchemaRead<'de, C>> SchemaRead<'de, C> for std::boxed::Box<[T]> {
    type Dst = std::boxed::Box<[T::Dst]>;

    open spec fn dst_val(dst: &std::boxed::Box<[T::Dst]>) -> Seq<T::Val> {
        dst_vals::<T, C>(dst@)
    }

    open spec fn dec(inp: Input) -> Result<(Seq<T::Val>, Input), Fault> {
        seq_dec::<T, C::LengthEncoding, C>(inp)
    }

    open spec fn read_meta() -> TypeMeta {
        TypeMeta::Dynamic
    }

    open spec fn read_lawful() -> bool {
        T::read_lawful()
    }

    proof fn lemma_dec(inp: Input) {
        lemma_seq_dec::<T, C::LengthEncoding, C>(inp);
    }

    fn type_meta() -> (m: TypeMeta) {
        TypeMeta::Dynamic
    }

    fn get<R: Reader<'de>>(reader: &mut R) -> (r: ReadResult<std::boxed::Box<[T::Dst]>>) {
        let v = read_seq::<T, C::LengthEncoding, C, R>(reader)?;
        Ok(boxed_slice(v))
    }
}

impl<'de, C: Config, T: RoundTrip<'de, C>> RoundTrip<'de, C> for std::boxed::Box<[T]> {
    open spec fn round_trips() -> bool {
        seq_round_trips::<T, C>()
    }

    open spec fn src_valid(src: &std::boxed::Box<[T::Src]>) -> bool {
        all_valid::<T, C>(src@)
    }

    open spec fn needs_backing() -> bool {
        T::needs_backing()
    }

    proof fn lemma_round_trip(src: &std::boxed::Box<[T::Src]>, rest: Input) {
        let s: &[T::Src] = &**src;
        assert(s@.len() == s.len());
        lemma_seq_round_trip::<T, C::LengthEncoding, C>(src@, rest);
    }
}

/// A slice behind an [`std::rc::Rc`] with the length encoding `Len`.
pub struct Rc<T: ?Sized, Len>(PhantomData<T>, PhantomData<Len>);

impl<T: Model, Len> Model for Rc<[T], Len> {
    type Val = Seq<T::Val>;
}

/// A slice behind an [`std::rc::Rc`] is laid out as a vector of its elements.
impl<C: ConfigCore, T: SchemaWrite<C>, Len: SeqLen<C>> SchemaWrite<C> for Rc<[T], Len> {
    type Src = std::rc::Rc<[T::Src]>;

    open spec fn src_val(src: &std::rc::Rc<[T::Src]>) -> Seq<T::Val> {
        src_vals::<T, C>(src@)
    }

    open spec fn emit(src: &std::rc::Rc<[T::Src]>) -> Emit {
        seq_emit_checked::<T, Len, C>(src@)
    }

    open spec fn size_err(src: &std::rc::Rc<[T::Src]>) -> Option<WriteError> {
        seq_size_err::<T, Len, C>(src@)
    }

    open spec fn write_meta() -> TypeMeta {
        TypeMeta::Dynamic
    }

    open spec fn write_lawful() -> bool {
        T::write_lawful()
    }

    proof fn lemma_emit(src: &std::rc::Rc<[T::Src]>) {
        lemma_seq_emit::<T, Len, C>(src@);
    }

    fn type_meta() -> (m: TypeMeta) {
        TypeMeta::Dynamic
    }

    fn size_of(src: &std::rc::Rc<[T::Src]>) -> (r: WriteResult<usize>) {
        proof {
            lemma_seq_emit::<T, Len, C>(src@);
        }
        size_of_elem_slice::<T, Len, C>(&**src)
    }

    fn write<W: Writer>(writer: &mut W, src: &std::rc::Rc<[T::Src]>) -> (r: WriteResult<()>)
        ensures
            limit_kept::<C, T::Src>(
                src@.len(),
                old(writer).output(),
                final(writer).output(),
                r,
            ),
    {
        write_elem_slice_prealloc_check::<T, Len, C, W>(writer, &**src)
    }
}

impl<
    'de,
    C: ConfigCore,
    T: SchemaRead<'de, C>,
    Len: SeqLen<C>,
> SchemaRead<'de, C> for Rc<[T], Len> {
    type Dst = std::rc::Rc<[T::Dst]>;

    open spec fn dst_val(dst: &std::rc::Rc<[T::Dst]>) -> Seq<T::Val> {
        dst_vals::<T, C>(dst@)
    }

    open spec fn dec(inp: Input) -> Result<(Seq<T::Val>, Input), Fault> {
        seq_dec::<T, Len, C>(inp)
    }

    open spec fn read_meta() -> TypeMeta {
        TypeMeta::Dynamic
    }

    open spec fn read_lawful() -> bool {
        T::read_lawful()
    }

    proof fn lemma_dec(inp: Input) {
        lemma_seq_dec::<T, Len, C>(inp);
    }

    fn type_meta() -> (m: TypeMeta) {
        TypeMeta::Dynamic
    }

    fn get<R: Reader<'de>>(reader: &mut R) -> (r: ReadResult<std::rc::Rc<[T::Dst]>>) {
        let v = read_seq::<T, Len, C, R>(reader)?;
        Ok(rc_slice(v))
    }
}

impl<'de, C: ConfigCore, T: RoundTrip<'de, C>, Len: SeqLen<C>> RoundTrip<'de, C> for Rc<[T], Len> {
    open spec fn round_trips() -> bool {
        seq_round_trips::<T, C>()
    }

    open spec fn src_valid(src: &std::rc::Rc<[T::Src]>) -> bool {
        all_valid::<T, C>(src@)
    }

    open spec fn needs_backing() -> bool {
        T::needs_backing()
    }

    proof fn lemma_round_trip(src: &std::rc::Rc<[T::Src]>, rest: Input) {
        let s: &[T::Src] = &**src;
        assert(s@.len() == s.len());
        lemma_seq_round_trip::<T, Len, C>(src@, rest);
    }
}

impl<T: Model> Model for std::rc::Rc<[T]> {
    type Val = Seq<T::Val>;
}

/// As [`Rc`], with the length encoding of the configuration.
impl<C: Config, T: SchemaWrite<C>> SchemaWrite<C> for std::rc::Rc<[T]> {
    type Src = std::rc::Rc<[T::Src]>;

    open spec fn src_val(src: &std::rc::Rc<[T::Src]>) -> Seq<T::Val> {
        src_vals::<T, C>(src@)
    }

    open spec fn emit(src: &std::rc::Rc<[T::Src]>) -> Emit {
        seq_emit_checked::<T, C::LengthEncoding, C>(src@)
    }

    open spec fn size_err(src: &std::rc::Rc<[T::Src]>) -> Option<WriteError> {
        seq_size_err::<T, C::LengthEncoding, C>(src@)
    }

    open spec fn write_meta() -> TypeMeta {
        TypeMeta::Dynamic
    }

    open spec fn write_lawful() -> bool {
        T::write_lawful()
    }

    proof fn lemma_emit(src: &std::rc::Rc<[T::Src]>) {
        lemma_seq_emit::<T, C::LengthEncoding, C>(src@);
    }

    fn type_meta() -> (m: TypeMeta) {
        TypeMeta::Dynamic
    }

    fn size_of(src: &std::rc::Rc<[T::Src]>) -> (r: WriteResult<usize>) {
        proof {
            lemma_seq_emit::<T, C::LengthEncoding, C>(src@);
        }
        size_of_elem_slice::<T, C::LengthEncoding, C>(&**src)
    }

    fn write<W: Writer>(writer: &mut W, src: &std::rc::Rc<[T::Src]>) -> (r: WriteResult<()>)
        ensures
            limit_kept::<C, T::Src>(
                src@.len(),
                old(writer).output(),
                final(writer).output(),
                r,
            ),
    {
        write_elem_slice_prealloc_check::<T, C::LengthEncoding, C, W>(writer, &**src)
    }
}

impl<'de, C: Config, T: SchemaRead<'de, C>> SchemaRead<'de, C> for std::rc::Rc<[T]> {
    type Dst = std::rc::Rc<[T::Dst]>;

    open spec fn dst_val(dst: &std::rc::Rc<[T::Dst]>) -> Seq<T::Val> {
        dst_vals::<T, C>(dst@)
    }

    open spec fn dec(inp: Input) -> Result<(Seq<T::Val>, Input), Fault> {
        seq_dec::<T, C::LengthEncoding, C>(inp)
    }

    open spec fn read_meta() -> TypeMeta {
        TypeMeta::Dynamic
    }

    open spec fn read_lawful() -> bool {
        T::read_lawful()
    }

    proof fn lemma_dec(inp: Input) {
        lemma_seq_dec::<T, C::LengthEncoding, C>(inp);
    }

    fn type_meta() -> (m: TypeMeta) {
        TypeMeta::Dynamic
    }

    fn get<R: Reader<'de>>(reader: &mut R) -> (r: ReadResult<std::rc::Rc<[T::Dst]>>) {
        let v = read_seq::<T, C::LengthEncoding, C, R>(reader)?;
        Ok(rc_slice(v))
    }
}

impl<'de, C: Config, T: RoundTrip<'de, C>> RoundTrip<'de, C> for std::rc::Rc<[T]> {
    open spec fn round_trips() -> bool {
        seq_round_trips::<T, C>()
    }

    open spec fn src_valid(src: &std::rc::Rc<[T::Src]>) -> bool {
        all_valid::<T, C>(src@)
    }

    open spec fn needs_backing() -> bool {
        T::needs_backing()
    }

    proof fn lemma_round_trip(src: &std::rc::Rc<[T::Src]>, rest: Input) {
        let s: &[T::Src] = &**src;
        assert(s@.len() == s.len());
        lemma_seq_round_trip::<T, C::LengthEncoding, C>(src@, rest);
    }
}

/// A slice behind an [`std::sync::Arc`] with the length encoding `Len`.
pub struct Arc<T: ?Sized, Len>(PhantomData<T>, PhantomData<Len>);

impl<T: Model, Len> Model for Arc<[T], Len> {
    type Val = Seq<T::Val>;
}

/// A slice behind an [`std::sync::Arc`] is laid out as a vector of its elements.
impl<C: ConfigCore, T: SchemaWrite<C>, Len: SeqLen<C>> SchemaWrite<C> for Arc<[T], Len> {
    type Src = std::sync::Arc<[T::Src]>;

    open spec fn src_val(src: &std::sync::Arc<[T::Src]>) -> Seq<T::Val> {
        src_vals::<T, C>(src@)
    }

    open spec fn emit(src: &std::sync::Arc<[T::Src]>) -> Emit {
        seq_emit_checked::<T, Len, C>(src@)
    }

    open spec fn size_err(src: &std::sync::Arc<[T::Src]>) -> Option<WriteError> {
        seq_size_err::<T, Len, C>(src@)
    }

    open spec fn write_meta() -> TypeMeta {
        TypeMeta::Dynamic
    }

    open spec fn write_lawful() -> bool {
        T::write_lawful()
    }

    proof fn lemma_emit(src: &std::sync::Arc<[T::Src]>) {
        lemma_seq_emit::<T, Len, C>(src@);
    }

    fn type_meta() -> (m: TypeMeta) {
        TypeMeta::Dynamic
    }

    fn size_of(src: &std::sync::Arc<[T::Src]>) -> (r: WriteResult<usize>) {
        proof {
            lemma_seq_emit::<T, Len, C>(src@);
        }
        size_of_elem_slice::<T, Len, C>(&**src)
    }

    fn write<W: Writer>(writer: &mut W, src: &std::sync::Arc<[T::Src]>) -> (r: WriteResult<()>)
        ensures
            limit_kept::<C, T::Src>(
                src@.len(),
                old(writer).output(),
                final(writer).output(),
                r,
            ),
    {
        write_elem_slice_prealloc_check::<T, Len, C, W>(writer, &**src)
    }
}

impl<
    'de,
    C: ConfigCore,
    T: SchemaRead<'de, C>,
    Len: SeqLen<C>,
> SchemaRead<'de, C> for Arc<[T], Len> {
    type Dst = std::sync::Arc<[T::Dst]>;

    open spec fn dst_val(dst: &std::sync::Arc<[T::Dst]>) -> Seq<T::Val> {
        dst_vals::<T, C>(dst@)
    }

    open spec fn dec(inp: Input) -> Result<(Seq<T::Val>, Input), Fault> {
        seq_dec::<T, Len, C>(inp)
    }

    open spec fn read_meta() -> TypeMeta {
        TypeMeta::Dynamic
    }

    open spec fn read_lawful() -> bool {
        T::read_lawful()
    }

    proof fn lemma_dec(inp: Input) {
        lemma_seq_dec::<T, Len, C>(inp);
    }

    fn type_meta() -> (m: TypeMeta) {
        TypeMeta::Dynamic
    }

    fn get<R: Reader<'de>>(reader: &mut R) -> (r: ReadResult<std::sync::Arc<[T::Dst]>>) {
        let v = read_seq::<T, Len, C, R>(reader)?;
        Ok(arc_slice(v))
    }
}

impl<'de, C: ConfigCore, T: RoundTrip<'de, C>, Len: SeqLen<C>> RoundTrip<'de, C> for Arc<[T], Len> {
    open spec fn round_trips() -> bool {
        seq_round_trips::<T, C>()
    }

    open spec fn src_valid(src: &std::sync::Arc<[T::Src]>) -> bool {
        all_valid::<T, C>(src@)
    }

    open spec fn needs_backing() -> bool {
        T::needs_backing()
    }

    proof fn lemma_round_trip(src: &std::sync::Arc<[T::Src]>, rest: Input) {
        let s: &[T::Src] = &**src;
        assert(s@.len() == s.len());
        lemma_seq_round_trip::<T, Len, C>(src@, rest);
    }
}

impl<T: Model> Model for std::sync::Arc<[T]> {
    type Val = Seq<T::Val>;
}

/// As [`Arc`], with the length encoding of the configuration.
impl<C: Config, T: SchemaWrite<C>> SchemaWrite<C> for std::sync::Arc<[T]> {
    type Src = std::sync::Arc<[T::Src]>;

    open spec fn src_val(src: &std::sync::Arc<[T::Src]>) -> Seq<T::Val> {
        src_vals::<T, C>(src@)
    }

    open spec fn emit(src: &std::sync::Arc<[T::Src]>) -> Emit {
        seq_emit_checked::<T, C::LengthEncoding, C>(src@)
    }

    open spec fn size_err(src: &std::sync::Arc<[T::Src]>) -> Option<WriteError> {
        seq_size_err::<T, C::LengthEncoding, C>(src@)
    }

    open spec fn write_meta() -> TypeMeta {
        TypeMeta::Dynamic
    }

    open spec fn write_lawful() -> bool {
        T::write_lawful()
    }

    proof fn lemma_emit(src: &std::sync::Arc<[T::Src]>) {
        lemma_seq_emit::<T, C::LengthEncoding, C>(src@);
    }

    fn type_meta() -> (m: TypeMeta) {
        TypeMeta::Dynamic
    }

    fn size_of(src: &std::sync::Arc<[T::Src]>) -> (r: WriteResult<usize>) {
        proof {
            lemma_seq_emit::<T, C::LengthEncoding, C>(src@);
        }
        size_of_elem_slice::<T, C::LengthEncoding, C>(&**src)
    }

    fn write<W: Writer>(writer: &mut W, src: &std::sync::Arc<[T::Src]>) -> (r: WriteResult<()>)
        ensures
            limit_kept::<C, T::Src>(
                src@.len(),
                old(writer).output(),
                final(writer).output(),
                r,
            ),
    {
        write_elem_slice_prealloc_check::<T, C::LengthEncoding, C, W>(writer, &**src)
    }
}

impl<'de, C: Config, T: SchemaRead<'de, C>> SchemaRead<'de, C> for std::sync::Arc<[T]> {
    type Dst = std::sync::Arc<[T::Dst]>;

    open spec fn dst_val(dst: &std::sync::Arc<[T::Dst]>) -> Seq<T::Val> {
        dst_vals::<T, C>(dst@)
    }

    open spec fn dec(inp: Input) -> Result<(Seq<T::Val>, Input), Fault> {
        seq_dec::<T, C::LengthEncoding, C>(inp)
    }

    open spec fn read_meta() -> TypeMeta {
        TypeMeta::Dynamic
    }

    open spec fn read_lawful() -> bool {
        T::read_lawful()
    }

    proof fn lemma_dec(inp: Input) {
        lemma_seq_dec::<T, C::LengthEncoding, C>(inp);
    }

    fn type_meta() -> (m: TypeMeta) {
        TypeMeta::Dynamic
    }

    fn get<R: Reader<'de>>(reader: &mut R) -> (r: ReadResult<std::sync::Arc<[T::Dst]>>) {
        let v = read_seq::<T, C::LengthEncoding, C, R>(reader)?;
        Ok(arc_slice(v))
    }
}

impl<'de, C: Config, T: RoundTrip<'de, C>> RoundTrip<'de, C> for std::sync::Arc<[T]> {
    open spec fn round_trips() -> bool {
        seq_round_trips::<T, C>()
    }

    open spec fn src_valid(src: &std::sync::Arc<[T::Src]>) -> bool {
        all_valid::<T, C>(src@)
    }

    open spec fn needs_backing() -> bool {
        T::needs_backing()
    }

    proof fn lemma_round_trip(src: &std::sync::Arc<[T::Src]>, rest: Input) {
        let s: &[T::Src] = &**src;
        assert(s@.len() == s.len());
        lemma_seq_round_trip::<T, C::LengthEncoding, C>(src@, rest);
    }
}

} // verus!
