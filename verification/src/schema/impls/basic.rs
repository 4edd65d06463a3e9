//! Booleans, the unit type and types that hold nothing.
use crate::config::ConfigCore;
use crate::error::{invalid_bool_encoding, ReadError, ReadResult, WriteError, WriteResult};
use crate::io::{Reader, Writer};
use crate::model::{lemma_wrote_empty, Emit, Fault, Input};
use crate::schema::impls::byte::{
    byte_dec, lemma_byte_dec, lemma_byte_round_trip, read_byte, write_byte,
};
use crate::schema::{Model, RoundTrip, SchemaRead, SchemaWrite, TypeMeta};
use core::marker::PhantomData;
use vstd::prelude::*;

verus! {

broadcast use crate::model::lemma_follows_reflexive;

/// The byte of a boolean.
pub open spec fn byte_of_bool(b: bool) -> u8 {
    if b {
        1
    } else {
        0
    }
}

impl Model for bool {
    type Val = bool;
}

/// A boolean is one byte, `0` or `1`, as it is in memory.
impl<C: ConfigCore> SchemaWrite<C> for bool {
    type Src = bool;

    open spec fn src_val(src: &bool) -> bool {
        *src
    }

    open spec fn emit(src: &bool) -> Emit {
        Emit::done(seq![byte_of_bool(*src)])
    }

    open spec fn size_err(src: &bool) -> Option<WriteError> {
        None
    }

    open spec fn write_meta() -> TypeMeta {
        TypeMeta::Static { size: 1, zero_copy: true }
    }

    open spec fn write_lawful() -> bool {
        true
    }

    proof fn lemma_emit(src: &bool) {
    }

    fn type_meta() -> (m: TypeMeta) {
        TypeMeta::Static { size: 1, zero_copy: true }
    }

    fn size_of(src: &bool) -> (r: WriteResult<usize>) {
        Ok(1)
    }

    fn write<W: Writer>(writer: &mut W, src: &bool) -> (r: WriteResult<()>) {
        write_byte(writer, if *src {
            1
        } else {
            0
        })
    }
}

/// A byte other than `0` and `1` is no boolean, so reading in place is not possible.
impl<'de, C: ConfigCore> SchemaRead<'de, C> for bool {
    type Dst = bool;

    open spec fn dst_val(dst: &bool) -> bool {
        *dst
    }

    open spec fn dec(inp: Input) -> Result<(bool, Input), Fault> {
        match byte_dec(inp) {
            Ok((b, rest)) => if b == 0 {
                Ok((false, rest))
            } else if b == 1 {
                Ok((true, rest))
            } else {
                Err(rest.fault(ReadError::InvalidBoolEncoding(b)))
            },
            Err(e) => Err(e),
        }
    }

    open spec fn read_meta() -> TypeMeta {
        TypeMeta::Static { size: 1, zero_copy: false }
    }

    open spec fn read_lawful() -> bool {
        true
    }

    proof fn lemma_dec(inp: Input) {
        lemma_byte_dec(inp);
    }

    fn type_meta() -> (m: TypeMeta) {
        TypeMeta::Static { size: 1, zero_copy: false }
    }

    fn get<R: Reader<'de>>(reader: &mut R) -> (r: ReadResult<bool>) {
        let b: u8 = read_byte(reader)?;
        match b {
            0 => Ok(false),
            1 => Ok(true),
            _ => Err(invalid_bool_encoding(b)),
        }
    }
}

impl<'de, C: ConfigCore> RoundTrip<'de, C> for bool {
    open spec fn round_trips() -> bool {
        true
    }

    open spec fn src_valid(src: &bool) -> bool {
        true
    }

    open spec fn needs_backing() -> bool {
        false
    }

    proof fn lemma_round_trip(src: &bool, rest: Input) {
        lemma_byte_round_trip(byte_of_bool(*src), rest);
    }
}

impl Model for () {
    type Val = ();
}

/// The unit takes no bytes.
impl<C: ConfigCore> SchemaWrite<C> for () {
    type Src = ();

    open spec fn src_val(src: &()) -> () {
        ()
    }

    open spec fn emit(src: &()) -> Emit {
        Emit::done(Seq::empty())
    }

    open spec fn size_err(src: &()) -> Option<WriteError> {
        None
    }

    open spec fn write_meta() -> TypeMeta {
        TypeMeta::Static { size: 0, zero_copy: true }
    }

    open spec fn write_lawful() -> bool {
        true
    }

    proof fn lemma_emit(src: &()) {
    }

    fn type_meta() -> (m: TypeMeta) {
        TypeMeta::Static { size: 0, zero_copy: true }
    }

    fn size_of(src: &()) -> (r: WriteResult<usize>) {
        Ok(0)
    }

    fn write<W: Writer>(writer: &mut W, src: &()) -> (r: WriteResult<()>) {
        proof {
            lemma_wrote_empty(old(writer).output());
        }
        Ok(())
    }
}

impl<'de, C: ConfigCore> SchemaRead<'de, C> for () {
    type Dst = ();

    open spec fn dst_val(dst: &()) -> () {
        ()
    }

    open spec fn dec(inp: Input) -> Result<((), Input), Fault> {
        Ok(((), inp))
    }

    open spec fn read_meta() -> TypeMeta {
        TypeMeta::Static { size: 0, zero_copy: true }
    }

    open spec fn read_lawful() -> bool {
        true
    }

    proof fn lemma_dec(inp: Input) {
    }

    fn type_meta() -> (m: TypeMeta) {
        TypeMeta::Static { size: 0, zero_copy: true }
    }

    fn get<R: Reader<'de>>(reader: &mut R) -> (r: ReadResult<()>) {
        Ok(())
    }
}

impl<'de, C: ConfigCore> RoundTrip<'de, C> for () {
    open spec fn round_trips() -> bool {
        true
    }

    open spec fn src_valid(src: &()) -> bool {
        true
    }

    open spec fn needs_backing() -> bool {
        false
    }

    proof fn lemma_round_trip(src: &(), rest: Input) {
        assert(rest.prepend(Seq::empty()).bytes =~= rest.bytes);
    }
}

impl<T> Model for PhantomData<T> {
    type Val = ();
}

/// A marker takes no bytes.
impl<C: ConfigCore, T> SchemaWrite<C> for PhantomData<T> {
    type Src = PhantomData<T>;

    open spec fn src_val(src: &PhantomData<T>) -> () {
        ()
    }

    open spec fn emit(src: &PhantomData<T>) -> Emit {
        Emit::done(Seq::empty())
    }

    open spec fn size_err(src: &PhantomData<T>) -> Option<WriteError> {
        None
    }

    open spec fn write_meta() -> TypeMeta {
        TypeMeta::Static { size: 0, zero_copy: true }
    }

    open spec fn write_lawful() -> bool {
        true
    }

    proof fn lemma_emit(src: &PhantomData<T>) {
    }

    fn type_meta() -> (m: TypeMeta) {
        TypeMeta::Static { size: 0, zero_copy: true }
    }

    fn size_of(src: &PhantomData<T>) -> (r: WriteResult<usize>) {
        Ok(0)
    }

    fn write<W: Writer>(writer: &mut W, src: &PhantomData<T>) -> (r: WriteResult<()>) {
        proof {
            lemma_wrote_empty(old(writer).output());
        }
        Ok(())
    }
}

impl<'de, C: ConfigCore, T> SchemaRead<'de, C> for PhantomData<T> {
    type Dst = PhantomData<T>;

    open spec fn dst_val(dst: &PhantomData<T>) -> () {
        ()
    }

    open spec fn dec(inp: Input) -> Result<((), Input), Fault> {
        Ok(((), inp))
    }

    open spec fn read_meta() -> TypeMeta {
        TypeMeta::Static { size: 0, zero_copy: true }
    }

    open spec fn read_lawful() -> bool {
        true
    }

    proof fn lemma_dec(inp: Input) {
    }

    fn type_meta() -> (m: TypeMeta) {
        TypeMeta::Static { size: 0, zero_copy: true }
    }

    fn get<R: Reader<'de>>(reader: &mut R) -> (r: ReadResult<PhantomData<T>>) {
        Ok(PhantomData)
    }
}

impl<'de, C: ConfigCore, T> RoundTrip<'de, C> for PhantomData<T> {
    open spec fn round_trips() -> bool {
        true
    }

    open spec fn src_valid(src: &PhantomData<T>) -> bool {
        true
    }

    open spec fn needs_backing() -> bool {
        false
    }

    proof fn lemma_round_trip(src: &PhantomData<T>, rest: Input) {
        assert(rest.prepend(Seq::empty()).bytes =~= rest.bytes);
    }
}

} // verus!
