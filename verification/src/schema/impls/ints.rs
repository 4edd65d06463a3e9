//! Integers.
use crate::config::ConfigCore;
use crate::error::{pointer_sized_decode_error, ReadError, ReadResult, WriteError, WriteResult};
use crate::io::{Reader, Writer};
use crate::model::{Emit, Fault, Input};
use crate::schema::int_encoding::{IntEncoding, IntWidth};
use crate::schema::impls::byte::{
    byte_dec, lemma_byte_dec, lemma_byte_round_trip, read_byte, write_byte,
};
use crate::schema::{Model, RoundTrip, SchemaRead, SchemaWrite, TypeMeta};
use vstd::prelude::*;

verus! {

/// What is known of the layout of an integer of the given width.
pub open spec fn int_meta<C: ConfigCore>(w: IntWidth) -> TypeMeta {
    if C::IntEncoding::fixed() {
        TypeMeta::Static { size: w.bytes() as usize, zero_copy: C::IntEncoding::zero_copy() }
    } else {
        TypeMeta::Dynamic
    }
}

/// See [`int_meta`].
pub fn type_meta_of_int<C: ConfigCore>(w: IntWidth) -> (m: TypeMeta)
    ensures
        m == int_meta::<C>(w),
{
    if C::IntEncoding::is_fixed() {
        TypeMeta::Static { size: w.size(), zero_copy: C::IntEncoding::is_zero_copy() }
    } else {
        TypeMeta::Dynamic
    }
}

impl Model for u16 {
    type Val = u16;
}

impl<C: ConfigCore> SchemaWrite<C> for u16 {
    type Src = u16;

    open spec fn src_val(src: &u16) -> u16 {
        *src
    }

    open spec fn emit(src: &u16) -> Emit {
        Emit::done(C::IntEncoding::uint_bytes(IntWidth::W16, *src as nat))
    }

    open spec fn size_err(src: &u16) -> Option<WriteError> {
        None
    }

    open spec fn write_meta() -> TypeMeta {
        int_meta::<C>(IntWidth::W16)
    }

    open spec fn write_lawful() -> bool {
        true
    }

    proof fn lemma_emit(src: &u16) {
        C::IntEncoding::lemma_uint_round_trip(
            IntWidth::W16,
            *src as nat,
            Input { bytes: Seq::empty(), backing: false },
        );
    }

    fn type_meta() -> (m: TypeMeta) {
        type_meta_of_int::<C>(IntWidth::W16)
    }

    fn size_of(src: &u16) -> (r: WriteResult<usize>) {
        Ok(C::IntEncoding::size_of_uint(IntWidth::W16, *src as u128))
    }

    fn write<W: Writer>(writer: &mut W, src: &u16) -> (r: WriteResult<()>) {
        C::IntEncoding::encode_uint(writer, IntWidth::W16, *src as u128)
    }
}

impl<'de, C: ConfigCore> SchemaRead<'de, C> for u16 {
    type Dst = u16;

    open spec fn dst_val(dst: &u16) -> u16 {
        *dst
    }

    open spec fn dec(inp: Input) -> Result<(u16, Input), Fault> {
        match C::IntEncoding::uint_dec(IntWidth::W16, inp) {
            Ok((v, rest)) => Ok((v as u16, rest)),
            Err(e) => Err(e),
        }
    }

    open spec fn read_meta() -> TypeMeta {
        int_meta::<C>(IntWidth::W16)
    }

    open spec fn read_lawful() -> bool {
        true
    }

    proof fn lemma_dec(inp: Input) {
        C::IntEncoding::lemma_uint_dec(IntWidth::W16, inp);
    }

    fn type_meta() -> (m: TypeMeta) {
        type_meta_of_int::<C>(IntWidth::W16)
    }

    fn get<R: Reader<'de>>(reader: &mut R) -> (r: ReadResult<u16>) {
        proof {
            C::IntEncoding::lemma_uint_dec(IntWidth::W16, old(reader).input());
        }
        let v: u128 = C::IntEncoding::decode_uint(reader, IntWidth::W16)?;
        Ok(v as u16)
    }
}

impl<'de, C: ConfigCore> RoundTrip<'de, C> for u16 {
    open spec fn round_trips() -> bool {
        true
    }

    open spec fn src_valid(src: &u16) -> bool {
        true
    }

    open spec fn needs_backing() -> bool {
        false
    }

    proof fn lemma_round_trip(src: &u16, rest: Input) {
        C::IntEncoding::lemma_uint_round_trip(IntWidth::W16, *src as nat, rest);
    }
}

impl Model for u32 {
    type Val = u32;
}

impl<C: ConfigCore> SchemaWrite<C> for u32 {
    type Src = u32;

    open spec fn src_val(src: &u32) -> u32 {
        *src
    }

    open spec fn emit(src: &u32) -> Emit {
        Emit::done(C::IntEncoding::uint_bytes(IntWidth::W32, *src as nat))
    }

    open spec fn size_err(src: &u32) -> Option<WriteError> {
        None
    }

    open spec fn write_meta() -> TypeMeta {
        int_meta::<C>(IntWidth::W32)
    }

    open spec fn write_lawful() -> bool {
        true
    }

    proof fn lemma_emit(src: &u32) {
        C::IntEncoding::lemma_uint_round_trip(
            IntWidth::W32,
            *src as nat,
            Input { bytes: Seq::empty(), backing: false },
        );
    }

    fn type_meta() -> (m: TypeMeta) {
        type_meta_of_int::<C>(IntWidth::W32)
    }

    fn size_of(src: &u32) -> (r: WriteResult<usize>) {
        Ok(C::IntEncoding::size_of_uint(IntWidth::W32, *src as u128))
    }

    fn write<W: Writer>(writer: &mut W, src: &u32) -> (r: WriteResult<()>) {
        C::IntEncoding::encode_uint(writer, IntWidth::W32, *src as u128)
    }
}

impl<'de, C: ConfigCore> SchemaRead<'de, C> for u32 {
    type Dst = u32;

    open spec fn dst_val(dst: &u32) -> u32 {
        *dst
    }

    open spec fn dec(inp: Input) -> Result<(u32, Input), Fault> {
        match C::IntEncoding::uint_dec(IntWidth::W32, inp) {
            Ok((v, rest)) => Ok((v as u32, rest)),
            Err(e) => Err(e),
        }
    }

    open spec fn read_meta() -> TypeMeta {
        int_meta::<C>(IntWidth::W32)
    }

    open spec fn read_lawful() -> bool {
        true
    }

    proof fn lemma_dec(inp: Input) {
        C::IntEncoding::lemma_uint_dec(IntWidth::W32, inp);
    }

    fn type_meta() -> (m: TypeMeta) {
        type_meta_of_int::<C>(IntWidth::W32)
    }

    fn get<R: Reader<'de>>(reader: &mut R) -> (r: ReadResult<u32>) {
        proof {
            C::IntEncoding::lemma_uint_dec(IntWidth::W32, old(reader).input());
        }
        let v: u128 = C::IntEncoding::decode_uint(reader, IntWidth::W32)?;
        Ok(v as u32)
    }
}

impl<'de, C: ConfigCore> RoundTrip<'de, C> for u32 {
    open spec fn round_trips() -> bool {
        true
    }

    open spec fn src_valid(src: &u32) -> bool {
        true
    }

    open spec fn needs_backing() -> bool {
        false
    }

    proof fn lemma_round_trip(src: &u32, rest: Input) {
        C::IntEncoding::lemma_uint_round_trip(IntWidth::W32, *src as nat, rest);
    }
}

impl Model for u64 {
    type Val = u64;
}

impl<C: ConfigCore> SchemaWrite<C> for u64 {
    type Src = u64;

    open spec fn src_val(src: &u64) -> u64 {
        *src
    }

    open spec fn emit(src: &u64) -> Emit {
        Emit::done(C::IntEncoding::uint_bytes(IntWidth::W64, *src as nat))
    }

    open spec fn size_err(src: &u64) -> Option<WriteError> {
        None
    }

    open spec fn write_meta() -> TypeMeta {
        int_meta::<C>(IntWidth::W64)
    }

    open spec fn write_lawful() -> bool {
        true
    }

    proof fn lemma_emit(src: &u64) {
        C::IntEncoding::lemma_uint_round_trip(
            IntWidth::W64,
            *src as nat,
            Input { bytes: Seq::empty(), backing: false },
        );
    }

    fn type_meta() -> (m: TypeMeta) {
        type_meta_of_int::<C>(IntWidth::W64)
    }

    fn size_of(src: &u64) -> (r: WriteResult<usize>) {
        Ok(C::IntEncoding::size_of_uint(IntWidth::W64, *src as u128))
    }

    fn write<W: Writer>(writer: &mut W, src: &u64) -> (r: WriteResult<()>) {
        C::IntEncoding::encode_uint(writer, IntWidth::W64, *src as u128)
    }
}

impl<'de, C: ConfigCore> SchemaRead<'de, C> for u64 {
    type Dst = u64;

    open spec fn dst_val(dst: &u64) -> u64 {
        *dst
    }

    open spec fn dec(inp: Input) -> Result<(u64, Input), Fault> {
        match C::IntEncoding::uint_dec(IntWidth::W64, inp) {
            Ok((v, rest)) => Ok((v as u64, rest)),
            Err(e) => Err(e),
        }
    }

    open spec fn read_meta() -> TypeMeta {
        int_meta::<C>(IntWidth::W64)
    }

    open spec fn read_lawful() -> bool {
        true
    }

    proof fn lemma_dec(inp: Input) {
        C::IntEncoding::lemma_uint_dec(IntWidth::W64, inp);
    }

    fn type_meta() -> (m: TypeMeta) {
        type_meta_of_int::<C>(IntWidth::W64)
    }

    fn get<R: Reader<'de>>(reader: &mut R) -> (r: ReadResult<u64>) {
        proof {
            C::IntEncoding::lemma_uint_dec(IntWidth::W64, old(reader).input());
        }
        let v: u128 = C::IntEncoding::decode_uint(reader, IntWidth::W64)?;
        Ok(v as u64)
    }
}

impl<'de, C: ConfigCore> RoundTrip<'de, C> for u64 {
    open spec fn round_trips() -> bool {
        true
    }

    open spec fn src_valid(src: &u64) -> bool {
        true
    }

    open spec fn needs_backing() -> bool {
        false
    }

    proof fn lemma_round_trip(src: &u64, rest: Input) {
        C::IntEncoding::lemma_uint_round_trip(IntWidth::W64, *src as nat, rest);
    }
}

impl Model for u128 {
    type Val = u128;
}

impl<C: ConfigCore> SchemaWrite<C> for u128 {
    type Src = u128;

    open spec fn src_val(src: &u128) -> u128 {
        *src
    }

    open spec fn emit(src: &u128) -> Emit {
        Emit::done(C::IntEncoding::uint_bytes(IntWidth::W128, *src as nat))
    }

    open spec fn size_err(src: &u128) -> Option<WriteError> {
        None
    }

    open spec fn write_meta() -> TypeMeta {
        int_meta::<C>(IntWidth::W128)
    }

    open spec fn write_lawful() -> bool {
        true
    }

    proof fn lemma_emit(src: &u128) {
        C::IntEncoding::lemma_uint_round_trip(
            IntWidth::W128,
            *src as nat,
            Input { bytes: Seq::empty(), backing: false },
        );
    }

    fn type_meta() -> (m: TypeMeta) {
        type_meta_of_int::<C>(IntWidth::W128)
    }

    fn size_of(src: &u128) -> (r: WriteResult<usize>) {
        Ok(C::IntEncoding::size_of_uint(IntWidth::W128, *src as u128))
    }

    fn write<W: Writer>(writer: &mut W, src: &u128) -> (r: WriteResult<()>) {
        C::IntEncoding::encode_uint(writer, IntWidth::W128, *src as u128)
    }
}

impl<'de, C: ConfigCore> SchemaRead<'de, C> for u128 {
    type Dst = u128;

    open spec fn dst_val(dst: &u128) -> u128 {
        *dst
    }

    open spec fn dec(inp: Input) -> Result<(u128, Input), Fault> {
        match C::IntEncoding::uint_dec(IntWidth::W128, inp) {
            Ok((v, rest)) => Ok((v as u128, rest)),
            Err(e) => Err(e),
        }
    }

    open spec fn read_meta() -> TypeMeta {
        int_meta::<C>(IntWidth::W128)
    }

    open spec fn read_lawful() -> bool {
        true
    }

    proof fn lemma_dec(inp: Input) {
        C::IntEncoding::lemma_uint_dec(IntWidth::W128, inp);
    }

    fn type_meta() -> (m: TypeMeta) {
        type_meta_of_int::<C>(IntWidth::W128)
    }

    fn get<R: Reader<'de>>(reader: &mut R) -> (r: ReadResult<u128>) {
        proof {
            C::IntEncoding::lemma_uint_dec(IntWidth::W128, old(reader).input());
        }
        let v: u128 = C::IntEncoding::decode_uint(reader, IntWidth::W128)?;
        Ok(v as u128)
    }
}

impl<'de, C: ConfigCore> RoundTrip<'de, C> for u128 {
    open spec fn round_trips() -> bool {
        true
    }

    open spec fn src_valid(src: &u128) -> bool {
        true
    }

    open spec fn needs_backing() -> bool {
        false
    }

    proof fn lemma_round_trip(src: &u128, rest: Input) {
        C::IntEncoding::lemma_uint_round_trip(IntWidth::W128, *src as nat, rest);
    }
}

impl Model for i16 {
    type Val = i16;
}

impl<C: ConfigCore> SchemaWrite<C> for i16 {
    type Src = i16;

    open spec fn src_val(src: &i16) -> i16 {
        *src
    }

    open spec fn emit(src: &i16) -> Emit {
        Emit::done(C::IntEncoding::sint_bytes(IntWidth::W16, *src as int))
    }

    open spec fn size_err(src: &i16) -> Option<WriteError> {
        None
    }

    open spec fn write_meta() -> TypeMeta {
        int_meta::<C>(IntWidth::W16)
    }

    open spec fn write_lawful() -> bool {
        true
    }

    proof fn lemma_emit(src: &i16) {
        C::IntEncoding::lemma_sint_round_trip(
            IntWidth::W16,
            *src as int,
            Input { bytes: Seq::empty(), backing: false },
        );
    }

    fn type_meta() -> (m: TypeMeta) {
        type_meta_of_int::<C>(IntWidth::W16)
    }

    fn size_of(src: &i16) -> (r: WriteResult<usize>) {
        Ok(C::IntEncoding::size_of_sint(IntWidth::W16, *src as i128))
    }

    fn write<W: Writer>(writer: &mut W, src: &i16) -> (r: WriteResult<()>) {
        C::IntEncoding::encode_sint(writer, IntWidth::W16, *src as i128)
    }
}

impl<'de, C: ConfigCore> SchemaRead<'de, C> for i16 {
    type Dst = i16;

    open spec fn dst_val(dst: &i16) -> i16 {
        *dst
    }

    open spec fn dec(inp: Input) -> Result<(i16, Input), Fault> {
        match C::IntEncoding::sint_dec(IntWidth::W16, inp) {
            Ok((v, rest)) => Ok((v as i16, rest)),
            Err(e) => Err(e),
        }
    }

    open spec fn read_meta() -> TypeMeta {
        int_meta::<C>(IntWidth::W16)
    }

    open spec fn read_lawful() -> bool {
        true
    }

    proof fn lemma_dec(inp: Input) {
        C::IntEncoding::lemma_sint_dec(IntWidth::W16, inp);
    }

    fn type_meta() -> (m: TypeMeta) {
        type_meta_of_int::<C>(IntWidth::W16)
    }

    fn get<R: Reader<'de>>(reader: &mut R) -> (r: ReadResult<i16>) {
        proof {
            C::IntEncoding::lemma_sint_dec(IntWidth::W16, old(reader).input());
        }
        let v: i128 = C::IntEncoding::decode_sint(reader, IntWidth::W16)?;
        Ok(v as i16)
    }
}

impl<'de, C: ConfigCore> RoundTrip<'de, C> for i16 {
    open spec fn round_trips() -> bool {
        true
    }

    open spec fn src_valid(src: &i16) -> bool {
        true
    }

    open spec fn needs_backing() -> bool {
        false
    }

    proof fn lemma_round_trip(src: &i16, rest: Input) {
        C::IntEncoding::lemma_sint_round_trip(IntWidth::W16, *src as int, rest);
    }
}

impl Model for i32 {
    type Val = i32;
}

impl<C: ConfigCore> SchemaWrite<C> for i32 {
    type Src = i32;

    open spec fn src_val(src: &i32) -> i32 {
        *src
    }

    open spec fn emit(src: &i32) -> Emit {
        Emit::done(C::IntEncoding::sint_bytes(IntWidth::W32, *src as int))
    }

    open spec fn size_err(src: &i32) -> Option<WriteError> {
        None
    }

    open spec fn write_meta() -> TypeMeta {
        int_meta::<C>(IntWidth::W32)
    }

    open spec fn write_lawful() -> bool {
        true
    }

    proof fn lemma_emit(src: &i32) {
        C::IntEncoding::lemma_sint_round_trip(
            IntWidth::W32,
            *src as int,
            Input { bytes: Seq::empty(), backing: false },
        );
    }

    fn type_meta() -> (m: TypeMeta) {
        type_meta_of_int::<C>(IntWidth::W32)
    }

    fn size_of(src: &i32) -> (r: WriteResult<usize>) {
        Ok(C::IntEncoding::size_of_sint(IntWidth::W32, *src as i128))
    }

    fn write<W: Writer>(writer: &mut W, src: &i32) -> (r: WriteResult<()>) {
        C::IntEncoding::encode_sint(writer, IntWidth::W32, *src as i128)
    }
}

impl<'de, C: ConfigCore> SchemaRead<'de, C> for i32 {
    type Dst = i32;

    open spec fn dst_val(dst: &i32) -> i32 {
        *dst
    }

    open spec fn dec(inp: Input) -> Result<(i32, Input), Fault> {
        match C::IntEncoding::sint_dec(IntWidth::W32, inp) {
            Ok((v, rest)) => Ok((v as i32, rest)),
            Err(e) => Err(e),
        }
    }

    open spec fn read_meta() -> TypeMeta {
        int_meta::<C>(IntWidth::W32)
    }

    open spec fn read_lawful() -> bool {
        true
    }

    proof fn lemma_dec(inp: Input) {
        C::IntEncoding::lemma_sint_dec(IntWidth::W32, inp);
    }

    fn type_meta() -> (m: TypeMeta) {
        type_meta_of_int::<C>(IntWidth::W32)
    }

    fn get<R: Reader<'de>>(reader: &mut R) -> (r: ReadResult<i32>) {
        proof {
            C::IntEncoding::lemma_sint_dec(IntWidth::W32, old(reader).input());
        }
        let v: i128 = C::IntEncoding::decode_sint(reader, IntWidth::W32)?;
        Ok(v as i32)
    }
}

impl<'de, C: ConfigCore> RoundTrip<'de, C> for i32 {
    open spec fn round_trips() -> bool {
        true
    }

    open spec fn src_valid(src: &i32) -> bool {
        true
    }

    open spec fn needs_backing() -> bool {
        false
    }

    proof fn lemma_round_trip(src: &i32, rest: Input) {
        C::IntEncoding::lemma_sint_round_trip(IntWidth::W32, *src as int, rest);
    }
}

impl Model for i64 {
    type Val = i64;
}

impl<C: ConfigCore> SchemaWrite<C> for i64 {
    type Src = i64;

    open spec fn src_val(src: &i64) -> i64 {
        *src
    }

    open spec fn emit(src: &i64) -> Emit {
        Emit::done(C::IntEncoding::sint_bytes(IntWidth::W64, *src as int))
    }

    open spec fn size_err(src: &i64) -> Option<WriteError> {
        None
    }

    open spec fn write_meta() -> TypeMeta {
        int_meta::<C>(IntWidth::W64)
    }

    open spec fn write_lawful() -> bool {
        true
    }

    proof fn lemma_emit(src: &i64) {
        C::IntEncoding::lemma_sint_round_trip(
            IntWidth::W64,
            *src as int,
            Input { bytes: Seq::empty(), backing: false },
        );
    }

    fn type_meta() -> (m: TypeMeta) {
        type_meta_of_int::<C>(IntWidth::W64)
    }

    fn size_of(src: &i64) -> (r: WriteResult<usize>) {
        Ok(C::IntEncoding::size_of_sint(IntWidth::W64, *src as i128))
    }

    fn write<W: Writer>(writer: &mut W, src: &i64) -> (r: WriteResult<()>) {
        C::IntEncoding::encode_sint(writer, IntWidth::W64, *src as i128)
    }
}

impl<'de, C: ConfigCore> SchemaRead<'de, C> for i64 {
    type Dst = i64;

    open spec fn dst_val(dst: &i64) -> i64 {
        *dst
    }

    open spec fn dec(inp: Input) -> Result<(i64, Input), Fault> {
        match C::IntEncoding::sint_dec(IntWidth::W64, inp) {
            Ok((v, rest)) => Ok((v as i64, rest)),
            Err(e) => Err(e),
        }
    }

    open spec fn read_meta() -> TypeMeta {
        int_meta::<C>(IntWidth::W64)
    }

    open spec fn read_lawful() -> bool {
        true
    }

    proof fn lemma_dec(inp: Input) {
        C::IntEncoding::lemma_sint_dec(IntWidth::W64, inp);
    }

    fn type_meta() -> (m: TypeMeta) {
        type_meta_of_int::<C>(IntWidth::W64)
    }

    fn get<R: Reader<'de>>(reader: &mut R) -> (r: ReadResult<i64>) {
        proof {
            C::IntEncoding::lemma_sint_dec(IntWidth::W64, old(reader).input());
        }
        let v: i128 = C::IntEncoding::decode_sint(reader, IntWidth::W64)?;
        Ok(v as i64)
    }
}

impl<'de, C: ConfigCore> RoundTrip<'de, C> for i64 {
    open spec fn round_trips() -> bool {
        true
    }

    open spec fn src_valid(src: &i64) -> bool {
        true
    }

    open spec fn needs_backing() -> bool {
        false
    }

    proof fn lemma_round_trip(src: &i64, rest: Input) {
        C::IntEncoding::lemma_sint_round_trip(IntWidth::W64, *src as int, rest);
    }
}

impl Model for i128 {
    type Val = i128;
}

impl<C: ConfigCore> SchemaWrite<C> for i128 {
    type Src = i128;

    open spec fn src_val(src: &i128) -> i128 {
        *src
    }

    open spec fn emit(src: &i128) -> Emit {
        Emit::done(C::IntEncoding::sint_bytes(IntWidth::W128, *src as int))
    }

    open spec fn size_err(src: &i128) -> Option<WriteError> {
        None
    }

    open spec fn write_meta() -> TypeMeta {
        int_meta::<C>(IntWidth::W128)
    }

    open spec fn write_lawful() -> bool {
        true
    }

    proof fn lemma_emit(src: &i128) {
        C::IntEncoding::lemma_sint_round_trip(
            IntWidth::W128,
            *src as int,
            Input { bytes: Seq::empty(), backing: false },
        );
    }

    fn type_meta() -> (m: TypeMeta) {
        type_meta_of_int::<C>(IntWidth::W128)
    }

    fn size_of(src: &i128) -> (r: WriteResult<usize>) {
        Ok(C::IntEncoding::size_of_sint(IntWidth::W128, *src as i128))
    }

    fn write<W: Writer>(writer: &mut W, src: &i128) -> (r: WriteResult<()>) {
        C::IntEncoding::encode_sint(writer, IntWidth::W128, *src as i128)
    }
}

impl<'de, C: ConfigCore> SchemaRead<'de, C> for i128 {
    type Dst = i128;

    open spec fn dst_val(dst: &i128) -> i128 {
        *dst
    }

    open spec fn dec(inp: Input) -> Result<(i128, Input), Fault> {
        match C::IntEncoding::sint_dec(IntWidth::W128, inp) {
            Ok((v, rest)) => Ok((v as i128, rest)),
            Err(e) => Err(e),
        }
    }

    open spec fn read_meta() -> TypeMeta {
        int_meta::<C>(IntWidth::W128)
    }

    open spec fn read_lawful() -> bool {
        true
    }

    proof fn lemma_dec(inp: Input) {
        C::IntEncoding::lemma_sint_dec(IntWidth::W128, inp);
    }

    fn type_meta() -> (m: TypeMeta) {
        type_meta_of_int::<C>(IntWidth::W128)
    }

    fn get<R: Reader<'de>>(reader: &mut R) -> (r: ReadResult<i128>) {
        proof {
            C::IntEncoding::lemma_sint_dec(IntWidth::W128, old(reader).input());
        }
        let v: i128 = C::IntEncoding::decode_sint(reader, IntWidth::W128)?;
        Ok(v as i128)
    }
}

impl<'de, C: ConfigCore> RoundTrip<'de, C> for i128 {
    open spec fn round_trips() -> bool {
        true
    }

    open spec fn src_valid(src: &i128) -> bool {
        true
    }

    open spec fn needs_backing() -> bool {
        false
    }

    proof fn lemma_round_trip(src: &i128, rest: Input) {
        C::IntEncoding::lemma_sint_round_trip(IntWidth::W128, *src as int, rest);
    }
}

/// A pointer-sized integer is laid out as one of eight bytes, whatever the machine.
impl Model for usize {
    type Val = usize;
}

impl<C: ConfigCore> SchemaWrite<C> for usize {
    type Src = usize;

    open spec fn src_val(src: &usize) -> usize {
        *src
    }

    open spec fn emit(src: &usize) -> Emit {
        Emit::done(C::IntEncoding::uint_bytes(IntWidth::W64, *src as nat))
    }

    open spec fn size_err(src: &usize) -> Option<WriteError> {
        None
    }

    open spec fn write_meta() -> TypeMeta {
        int_meta::<C>(IntWidth::W64).masked(usize::BITS == 64)
    }

    open spec fn write_lawful() -> bool {
        true
    }

    proof fn lemma_emit(src: &usize) {
        C::IntEncoding::lemma_uint_round_trip(
            IntWidth::W64,
            *src as nat,
            Input { bytes: Seq::empty(), backing: false },
        );
    }

    fn type_meta() -> (m: TypeMeta) {
        type_meta_of_int::<C>(IntWidth::W64).keep_zero_copy(usize::BITS == 64)
    }

    fn size_of(src: &usize) -> (r: WriteResult<usize>) {
        Ok(C::IntEncoding::size_of_uint(IntWidth::W64, *src as u128))
    }

    fn write<W: Writer>(writer: &mut W, src: &usize) -> (r: WriteResult<()>) {
        C::IntEncoding::encode_uint(writer, IntWidth::W64, *src as u128)
    }
}

impl<'de, C: ConfigCore> SchemaRead<'de, C> for usize {
    type Dst = usize;

    open spec fn dst_val(dst: &usize) -> usize {
        *dst
    }

    open spec fn dec(inp: Input) -> Result<(usize, Input), Fault> {
        match C::IntEncoding::uint_dec(IntWidth::W64, inp) {
            Ok((v, rest)) => if usize::MIN <= v <= usize::MAX {
                Ok((v as usize, rest))
            } else {
                Err(rest.fault(ReadError::PointerSizedReadError))
            },
            Err(e) => Err(e),
        }
    }

    open spec fn read_meta() -> TypeMeta {
        int_meta::<C>(IntWidth::W64).masked(usize::BITS == 64)
    }

    open spec fn read_lawful() -> bool {
        true
    }

    proof fn lemma_dec(inp: Input) {
        C::IntEncoding::lemma_uint_dec(IntWidth::W64, inp);
    }

    fn type_meta() -> (m: TypeMeta) {
        type_meta_of_int::<C>(IntWidth::W64).keep_zero_copy(usize::BITS == 64)
    }

    fn get<R: Reader<'de>>(reader: &mut R) -> (r: ReadResult<usize>) {
        proof {
            C::IntEncoding::lemma_uint_dec(IntWidth::W64, old(reader).input());
        }
        let v: u128 = C::IntEncoding::decode_uint(reader, IntWidth::W64)?;
        if (usize::MIN as u128) <= v && v <= (usize::MAX as u128) {
            Ok(v as usize)
        } else {
            Err(pointer_sized_decode_error())
        }
    }
}

impl<'de, C: ConfigCore> RoundTrip<'de, C> for usize {
    open spec fn round_trips() -> bool {
        true
    }

    open spec fn src_valid(src: &usize) -> bool {
        true
    }

    open spec fn needs_backing() -> bool {
        false
    }

    proof fn lemma_round_trip(src: &usize, rest: Input) {
        C::IntEncoding::lemma_uint_round_trip(IntWidth::W64, *src as nat, rest);
    }
}

/// A pointer-sized integer is laid out as one of eight bytes, whatever the machine.
impl Model for isize {
    type Val = isize;
}

impl<C: ConfigCore> SchemaWrite<C> for isize {
    type Src = isize;

    open spec fn src_val(src: &isize) -> isize {
        *src
    }

    open spec fn emit(src: &isize) -> Emit {
        Emit::done(C::IntEncoding::sint_bytes(IntWidth::W64, *src as int))
    }

    open spec fn size_err(src: &isize) -> Option<WriteError> {
        None
    }

    open spec fn write_meta() -> TypeMeta {
        int_meta::<C>(IntWidth::W64).masked(usize::BITS == 64)
    }

    open spec fn write_lawful() -> bool {
        true
    }

    proof fn lemma_emit(src: &isize) {
        C::IntEncoding::lemma_sint_round_trip(
            IntWidth::W64,
            *src as int,
            Input { bytes: Seq::empty(), backing: false },
        );
    }

    fn type_meta() -> (m: TypeMeta) {
        type_meta_of_int::<C>(IntWidth::W64).keep_zero_copy(usize::BITS == 64)
    }

    fn size_of(src: &isize) -> (r: WriteResult<usize>) {
        Ok(C::IntEncoding::size_of_sint(IntWidth::W64, *src as i128))
    }

    fn write<W: Writer>(writer: &mut W, src: &isize) -> (r: WriteResult<()>) {
        C::IntEncoding::encode_sint(writer, IntWidth::W64, *src as i128)
    }
}

impl<'de, C: ConfigCore> SchemaRead<'de, C> for isize {
    type Dst = isize;

    open spec fn dst_val(dst: &isize) -> isize {
        *dst
    }

    open spec fn dec(inp: Input) -> Result<(isize, Input), Fault> {
        match C::IntEncoding::sint_dec(IntWidth::W64, inp) {
            Ok((v, rest)) => if isize::MIN <= v <= isize::MAX {
                Ok((v as isize, rest))
            } else {
                Err(rest.fault(ReadError::PointerSizedReadError))
            },
            Err(e) => Err(e),
        }
    }

    open spec fn read_meta() -> TypeMeta {
        int_meta::<C>(IntWidth::W64).masked(usize::BITS == 64)
    }

    open spec fn read_lawful() -> bool {
        true
    }

    proof fn lemma_dec(inp: Input) {
        C::IntEncoding::lemma_sint_dec(IntWidth::W64, inp);
    }

    fn type_meta() -> (m: TypeMeta) {
        type_meta_of_int::<C>(IntWidth::W64).keep_zero_copy(usize::BITS == 64)
    }

    fn get<R: Reader<'de>>(reader: &mut R) -> (r: ReadResult<isize>) {
        proof {
            C::IntEncoding::lemma_sint_dec(IntWidth::W64, old(reader).input());
        }
        let v: i128 = C::IntEncoding::decode_sint(reader, IntWidth::W64)?;
        if (isize::MIN as i128) <= v && v <= (isize::MAX as i128) {
            Ok(v as isize)
        } else {
            Err(pointer_sized_decode_error())
        }
    }
}

impl<'de, C: ConfigCore> RoundTrip<'de, C> for isize {
    open spec fn round_trips() -> bool {
        true
    }

    open spec fn src_valid(src: &isize) -> bool {
        true
    }

    open spec fn needs_backing() -> bool {
        false
    }

    proof fn lemma_round_trip(src: &isize, rest: Input) {
        C::IntEncoding::lemma_sint_round_trip(IntWidth::W64, *src as int, rest);
    }
}

impl Model for u8 {
    type Val = u8;
}

/// A byte stands for itself, whatever the layout of wider integers.
impl<C: ConfigCore> SchemaWrite<C> for u8 {
    type Src = u8;

    open spec fn src_val(src: &u8) -> u8 {
        *src
    }

    open spec fn emit(src: &u8) -> Emit {
        Emit::done(seq![*src])
    }

    open spec fn size_err(src: &u8) -> Option<WriteError> {
        None
    }

    open spec fn write_meta() -> TypeMeta {
        TypeMeta::Static { size: 1, zero_copy: true }
    }

    open spec fn write_lawful() -> bool {
        true
    }

    proof fn lemma_emit(src: &u8) {
    }

    fn type_meta() -> (m: TypeMeta) {
        TypeMeta::Static { size: 1, zero_copy: true }
    }

    fn size_of(src: &u8) -> (r: WriteResult<usize>) {
        Ok(1)
    }

    fn write<W: Writer>(writer: &mut W, src: &u8) -> (r: WriteResult<()>) {
        write_byte(writer, *src)
    }
}

impl<'de, C: ConfigCore> SchemaRead<'de, C> for u8 {
    type Dst = u8;

    open spec fn dst_val(dst: &u8) -> u8 {
        *dst
    }

    open spec fn dec(inp: Input) -> Result<(u8, Input), Fault> {
        match byte_dec(inp) {
            Ok((b, rest)) => Ok((b, rest)),
            Err(e) => Err(e),
        }
    }

    open spec fn read_meta() -> TypeMeta {
        TypeMeta::Static { size: 1, zero_copy: true }
    }

    open spec fn read_lawful() -> bool {
        true
    }

    proof fn lemma_dec(inp: Input) {
        lemma_byte_dec(inp);
    }

    fn type_meta() -> (m: TypeMeta) {
        TypeMeta::Static { size: 1, zero_copy: true }
    }

    fn get<R: Reader<'de>>(reader: &mut R) -> (r: ReadResult<u8>) {
        let b: u8 = read_byte(reader)?;
        Ok(b)
    }
}

impl<'de, C: ConfigCore> RoundTrip<'de, C> for u8 {
    open spec fn round_trips() -> bool {
        true
    }

    open spec fn src_valid(src: &u8) -> bool {
        true
    }

    open spec fn needs_backing() -> bool {
        false
    }

    proof fn lemma_round_trip(src: &u8, rest: Input) {
        lemma_byte_round_trip(*src, rest);
    }
}

/// The byte of a signed integer of one byte, in two's complement.
pub open spec fn byte_of_i8(v: i8) -> u8 {
    if v >= 0 {
        v as u8
    } else {
        (v + 0x100) as u8
    }
}

/// The signed integer of which `b` is the byte.
pub open spec fn i8_of_byte(b: u8) -> i8 {
    if b < 0x80 {
        b as i8
    } else {
        (b - 0x100) as i8
    }
}

fn byte_from_i8(v: i8) -> (b: u8)
    ensures
        b == byte_of_i8(v),
{
    if v >= 0 {
        v as u8
    } else {
        (v as i16 + 0x100) as u8
    }
}

fn i8_from_byte(b: u8) -> (v: i8)
    ensures
        v == i8_of_byte(b),
{
    if b < 0x80 {
        b as i8
    } else {
        (b as i16 - 0x100) as i8
    }
}

impl Model for i8 {
    type Val = i8;
}

/// A signed byte stands in two's complement.
impl<C: ConfigCore> SchemaWrite<C> for i8 {
    type Src = i8;

    open spec fn src_val(src: &i8) -> i8 {
        *src
    }

    open spec fn emit(src: &i8) -> Emit {
        Emit::done(seq![byte_of_i8(*src)])
    }

    open spec fn size_err(src: &i8) -> Option<WriteError> {
        None
    }

    open spec fn write_meta() -> TypeMeta {
        TypeMeta::Static { size: 1, zero_copy: true }
    }

    open spec fn write_lawful() -> bool {
        true
    }

    proof fn lemma_emit(src: &i8) {
    }

    fn type_meta() -> (m: TypeMeta) {
        TypeMeta::Static { size: 1, zero_copy: true }
    }

    fn size_of(src: &i8) -> (r: WriteResult<usize>) {
        Ok(1)
    }

    fn write<W: Writer>(writer: &mut W, src: &i8) -> (r: WriteResult<()>) {
        write_byte(writer, byte_from_i8(*src))
    }
}

impl<'de, C: ConfigCore> SchemaRead<'de, C> for i8 {
    type Dst = i8;

    open spec fn dst_val(dst: &i8) -> i8 {
        *dst
    }

    open spec fn dec(inp: Input) -> Result<(i8, Input), Fault> {
        match byte_dec(inp) {
            Ok((b, rest)) => Ok((i8_of_byte(b), rest)),
            Err(e) => Err(e),
        }
    }

    open spec fn read_meta() -> TypeMeta {
        TypeMeta::Static { size: 1, zero_copy: true }
    }

    open spec fn read_lawful() -> bool {
        true
    }

    proof fn lemma_dec(inp: Input) {
        lemma_byte_dec(inp);
    }

    fn type_meta() -> (m: TypeMeta) {
        TypeMeta::Static { size: 1, zero_copy: true }
    }

    fn get<R: Reader<'de>>(reader: &mut R) -> (r: ReadResult<i8>) {
        let b: u8 = read_byte(reader)?;
        Ok(i8_from_byte(b))
    }
}

impl<'de, C: ConfigCore> RoundTrip<'de, C> for i8 {
    open spec fn round_trips() -> bool {
        true
    }

    open spec fn src_valid(src: &i8) -> bool {
        true
    }

    open spec fn needs_backing() -> bool {
        false
    }

    proof fn lemma_round_trip(src: &i8, rest: Input) {
        lemma_byte_round_trip(byte_of_i8(*src), rest);
    }
}

} // verus!
