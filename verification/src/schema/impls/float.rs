//! Floating-point numbers, by their bits.
use crate::config::ConfigCore;
use crate::error::{ReadResult, WriteError, WriteResult};
use crate::io::{Reader, Writer};
use crate::model::{Emit, Fault, Input};
use crate::schema::int_encoding::{FixInt, IntEncoding, IntWidth};
use crate::schema::{Model, RoundTrip, SchemaRead, SchemaWrite, TypeMeta};
use vstd::prelude::*;

verus! {

/// What is known of the layout of a floating-point number of `size` bytes.
pub open spec fn float_meta<C: ConfigCore>(size: usize) -> TypeMeta {
    TypeMeta::Static { size, zero_copy: <FixInt as IntEncoding<C::ByteOrder>>::zero_copy() }
}

/// See [`float_meta`].
fn type_meta_of_float<C: ConfigCore>(size: usize) -> (m: TypeMeta)
    ensures
        m == float_meta::<C>(size),
{
    TypeMeta::Static { size, zero_copy: <FixInt as IntEncoding<C::ByteOrder>>::is_zero_copy() }
}

/// The bits of a floating-point number of 32 bits.
#[derive(Debug, Clone, Copy, PartialEq, Eq)]
pub struct F32Bits(pub u32);

impl Model for F32Bits {
    type Val = u32;
}

/// The bits of a floating-point number are written in full, in the order of bytes of the
/// configuration, whatever its layout of integers.
impl<C: ConfigCore> SchemaWrite<C> for F32Bits {
    type Src = F32Bits;

    open spec fn src_val(src: &F32Bits) -> u32 {
        src.0
    }

    open spec fn emit(src: &F32Bits) -> Emit {
        Emit::done(
            <FixInt as IntEncoding<C::ByteOrder>>::uint_bytes(IntWidth::W32, src.0 as nat),
        )
    }

    open spec fn size_err(src: &F32Bits) -> Option<WriteError> {
        None
    }

    open spec fn write_meta() -> TypeMeta {
        float_meta::<C>(4)
    }

    open spec fn write_lawful() -> bool {
        true
    }

    proof fn lemma_emit(src: &F32Bits) {
        <FixInt as IntEncoding<C::ByteOrder>>::lemma_uint_round_trip(
            IntWidth::W32,
            src.0 as nat,
            Input { bytes: Seq::empty(), backing: false },
        );
    }

    fn type_meta() -> (m: TypeMeta) {
        type_meta_of_float::<C>(4)
    }

    fn size_of(src: &F32Bits) -> (r: WriteResult<usize>) {
        proof {
            <F32Bits as SchemaWrite<C>>::lemma_emit(src);
        }
        Ok(4)
    }

    fn write<W: Writer>(writer: &mut W, src: &F32Bits) -> (r: WriteResult<()>) {
        <FixInt as IntEncoding<C::ByteOrder>>::encode_uint(writer, IntWidth::W32, src.0 as u128)
    }
}

impl<'de, C: ConfigCore> SchemaRead<'de, C> for F32Bits {
    type Dst = F32Bits;

    open spec fn dst_val(dst: &F32Bits) -> u32 {
        dst.0
    }

    open spec fn dec(inp: Input) -> Result<(u32, Input), Fault> {
        match <FixInt as IntEncoding<C::ByteOrder>>::uint_dec(IntWidth::W32, inp) {
            Ok((v, rest)) => Ok((v as u32, rest)),
            Err(e) => Err(e),
        }
    }

    open spec fn read_meta() -> TypeMeta {
        float_meta::<C>(4)
    }

    open spec fn read_lawful() -> bool {
        true
    }

    proof fn lemma_dec(inp: Input) {
        <FixInt as IntEncoding<C::ByteOrder>>::lemma_uint_dec(IntWidth::W32, inp);
    }

    fn type_meta() -> (m: TypeMeta) {
        type_meta_of_float::<C>(4)
    }

    fn get<R: Reader<'de>>(reader: &mut R) -> (r: ReadResult<F32Bits>) {
        proof {
            <FixInt as IntEncoding<C::ByteOrder>>::lemma_uint_dec(
                IntWidth::W32,
                old(reader).input(),
            );
        }
        let v: u128 = <FixInt as IntEncoding<C::ByteOrder>>::decode_uint(reader, IntWidth::W32)?;
        Ok(F32Bits(v as u32))
    }
}

impl<'de, C: ConfigCore> RoundTrip<'de, C> for F32Bits {
    open spec fn round_trips() -> bool {
        true
    }

    open spec fn src_valid(src: &F32Bits) -> bool {
        true
    }

    open spec fn needs_backing() -> bool {
        false
    }

    proof fn lemma_round_trip(src: &F32Bits, rest: Input) {
        <FixInt as IntEncoding<C::ByteOrder>>::lemma_uint_round_trip(
            IntWidth::W32,
            src.0 as nat,
            rest,
        );
    }
}

/// The bits of a floating-point number of 64 bits.
#[derive(Debug, Clone, Copy, PartialEq, Eq)]
pub struct F64Bits(pub u64);

impl Model for F64Bits {
    type Val = u64;
}

/// The bits of a floating-point number are written in full, in the order of bytes of the
/// configuration, whatever its layout of integers.
impl<C: ConfigCore> SchemaWrite<C> for F64Bits {
    type Src = F64Bits;

    open spec fn src_val(src: &F64Bits) -> u64 {
        src.0
    }

    open spec fn emit(src: &F64Bits) -> Emit {
        Emit::done(
            <FixInt as IntEncoding<C::ByteOrder>>::uint_bytes(IntWidth::W64, src.0 as nat),
        )
    }

    open spec fn size_err(src: &F64Bits) -> Option<WriteError> {
        None
    }

    open spec fn write_meta() -> TypeMeta {
        float_meta::<C>(8)
    }

    open spec fn write_lawful() -> bool {
        true
    }

    proof fn lemma_emit(src: &F64Bits) {
        <FixInt as IntEncoding<C::ByteOrder>>::lemma_uint_round_trip(
            IntWidth::W64,
            src.0 as nat,
            Input { bytes: Seq::empty(), backing: false },
        );
    }

    fn type_meta() -> (m: TypeMeta) {
        type_meta_of_float::<C>(8)
    }

    fn size_of(src: &F64Bits) -> (r: WriteResult<usize>) {
        proof {
            <F64Bits as SchemaWrite<C>>::lemma_emit(src);
        }
        Ok(8)
    }

    fn write<W: Writer>(writer: &mut W, src: &F64Bits) -> (r: WriteResult<()>) {
        <FixInt as IntEncoding<C::ByteOrder>>::encode_uint(writer, IntWidth::W64, src.0 as u128)
    }
}

impl<'de, C: ConfigCore> SchemaRead<'de, C> for F64Bits {
    type Dst = F64Bits;

    open spec fn dst_val(dst: &F64Bits) -> u64 {
        dst.0
    }

    open spec fn dec(inp: Input) -> Result<(u64, Input), Fault> {
        match <FixInt as IntEncoding<C::ByteOrder>>::uint_dec(IntWidth::W64, inp) {
            Ok((v, rest)) => Ok((v as u64, rest)),
            Err(e) => Err(e),
        }
    }

    open spec fn read_meta() -> TypeMeta {
        float_meta::<C>(8)
    }

    open spec fn read_lawful() -> bool {
        true
    }

    proof fn lemma_dec(inp: Input) {
        <FixInt as IntEncoding<C::ByteOrder>>::lemma_uint_dec(IntWidth::W64, inp);
    }

    fn type_meta() -> (m: TypeMeta) {
        type_meta_of_float::<C>(8)
    }

    fn get<R: Reader<'de>>(reader: &mut R) -> (r: ReadResult<F64Bits>) {
        proof {
            <FixInt as IntEncoding<C::ByteOrder>>::lemma_uint_dec(
                IntWidth::W64,
                old(reader).input(),
            );
        }
        let v: u128 = <FixInt as IntEncoding<C::ByteOrder>>::decode_uint(reader, IntWidth::W64)?;
        Ok(F64Bits(v as u64))
    }
}

impl<'de, C: ConfigCore> RoundTrip<'de, C> for F64Bits {
    open spec fn round_trips() -> bool {
        true
    }

    open spec fn src_valid(src: &F64Bits) -> bool {
        true
    }

    open spec fn needs_backing() -> bool {
        false
    }

    proof fn lemma_round_trip(src: &F64Bits, rest: Input) {
        <FixInt as IntEncoding<C::ByteOrder>>::lemma_uint_round_trip(
            IntWidth::W64,
            src.0 as nat,
            rest,
        );
    }
}

} // verus!
