//! What the bytes of single bytes, booleans, characters and floating-point numbers are.
use crate::config::ConfigCore;
use crate::error::ReadError;
use crate::model::{Fault, Input};
use crate::schema::impls::float::{F32Bits, F64Bits};
use crate::schema::int_encoding::{FixInt, IntEncoding, IntWidth};
use crate::schema::{RoundTrip, SchemaRead, SchemaWrite, TypeMeta};
use core::marker::PhantomData;
use vstd::prelude::*;

verus! {

/// A byte is laid out as itself, under every configuration.
pub proof fn law_u8_is_its_byte<'de, C: ConfigCore>(v: u8, inp: Input)
    ensures
        <u8 as SchemaWrite<C>>::emit(&v).err is None,
        <u8 as SchemaWrite<C>>::emit(&v).bytes == seq![v],
        inp.bytes.len() == 0 ==> <u8 as SchemaRead<'de, C>>::dec(inp) == Err::<(u8, Input), Fault>(
            (Fault { err: ReadError::Io(crate::io::ReadError::ReadSizeLimit(1)), left: inp }),
        ),
        inp.bytes.len() > 0 ==> <u8 as SchemaRead<'de, C>>::dec(inp) == Ok::<(u8, Input), Fault>(
            (inp.bytes[0], Input { bytes: inp.bytes.skip(1), backing: inp.backing }),
        ),
        <u8 as SchemaRead<'de, C>>::dst_val(&v) == v,
        <u8 as SchemaWrite<C>>::src_val(&v) == v,
        <u8 as SchemaWrite<C>>::size_err(&v) is None,
        <u8 as SchemaWrite<C>>::write_lawful(),
        <u8 as SchemaRead<'de, C>>::read_lawful(),
        <u8 as RoundTrip<'de, C>>::round_trips(),
        <u8 as RoundTrip<'de, C>>::src_valid(&v),
        !<u8 as RoundTrip<'de, C>>::needs_backing(),
        <u8 as SchemaWrite<C>>::write_meta() == (TypeMeta::Static { size: 1, zero_copy: true }),
        <u8 as SchemaRead<'de, C>>::read_meta() == (TypeMeta::Static { size: 1, zero_copy: true }),
{
}

/// A signed byte is laid out as the byte that it is congruent to modulo 256, and read as the number
/// from `-128` to `127` that is congruent to the byte, under every configuration.
pub proof fn law_i8_is_its_byte<'de, C: ConfigCore>(v: i8, inp: Input)
    ensures
        <i8 as SchemaWrite<C>>::emit(&v).err is None,
        <i8 as SchemaWrite<C>>::emit(&v).bytes.len() == 1,
        (<i8 as SchemaWrite<C>>::emit(&v).bytes[0] - v) % 256 == 0,
        inp.bytes.len() == 0 ==> <i8 as SchemaRead<'de, C>>::dec(inp) == Err::<(i8, Input), Fault>(
            (Fault { err: ReadError::Io(crate::io::ReadError::ReadSizeLimit(1)), left: inp }),
        ),
        inp.bytes.len() > 0 ==> {
            &&& <i8 as SchemaRead<'de, C>>::dec(inp) matches Ok((x, rest))
                && (inp.bytes[0] - x) % 256
                == 0 && rest == (Input { bytes: inp.bytes.skip(1), backing: inp.backing })
        },
        <i8 as SchemaRead<'de, C>>::dst_val(&v) == v,
        <i8 as SchemaWrite<C>>::src_val(&v) == v,
        <i8 as SchemaWrite<C>>::size_err(&v) is None,
        <i8 as SchemaWrite<C>>::write_lawful(),
        <i8 as SchemaRead<'de, C>>::read_lawful(),
        <i8 as RoundTrip<'de, C>>::round_trips(),
        <i8 as RoundTrip<'de, C>>::src_valid(&v),
        !<i8 as RoundTrip<'de, C>>::needs_backing(),
        <i8 as SchemaWrite<C>>::write_meta() == (TypeMeta::Static { size: 1, zero_copy: true }),
        <i8 as SchemaRead<'de, C>>::read_meta() == (TypeMeta::Static { size: 1, zero_copy: true }),
{
}

/// A boolean is the byte `0` if it is false and `1` if it is true, and any other byte is an error.
pub proof fn law_bool_is_zero_or_one<'de, C: ConfigCore>(v: bool, inp: Input)
    ensures
        <bool as SchemaWrite<C>>::emit(&v).err is None,
        !v ==> <bool as SchemaWrite<C>>::emit(&v).bytes == seq![0u8],
        v ==> <bool as SchemaWrite<C>>::emit(&v).bytes == seq![1u8],
        inp.bytes.len() == 0 ==> <bool as SchemaRead<'de, C>>::dec(inp) == Err::<
            (bool, Input),
            Fault,
        >((Fault { err: ReadError::Io(crate::io::ReadError::ReadSizeLimit(1)), left: inp })),
        inp.bytes.len() > 0 ==> {
            let tail = Input { bytes: inp.bytes.skip(1), backing: inp.backing };
            let r = <bool as SchemaRead<'de, C>>::dec(inp);
            &&& inp.bytes[0] == 0 ==> r == Ok::<(bool, Input), Fault>((false, tail))
            &&& inp.bytes[0] == 1 ==> r == Ok::<(bool, Input), Fault>((true, tail))
            &&& inp.bytes[0] > 1 ==> r == Err::<(bool, Input), Fault>(
                (Fault { err: ReadError::InvalidBoolEncoding(inp.bytes[0]), left: tail }),
            )
        },
        <bool as SchemaRead<'de, C>>::dst_val(&v) == v,
        <bool as SchemaWrite<C>>::src_val(&v) == v,
        <bool as SchemaWrite<C>>::size_err(&v) is None,
        <bool as SchemaWrite<C>>::write_lawful(),
        <bool as SchemaRead<'de, C>>::read_lawful(),
        <bool as RoundTrip<'de, C>>::round_trips(),
        <bool as RoundTrip<'de, C>>::src_valid(&v),
        !<bool as RoundTrip<'de, C>>::needs_backing(),
        <bool as SchemaWrite<C>>::write_meta() == (TypeMeta::Static { size: 1, zero_copy: true }),
        <bool as SchemaRead<'de, C>>::read_meta()
            == (TypeMeta::Static { size: 1, zero_copy: false }),
{
}

/// The unit and markers take no bytes, and are read from anything.
pub proof fn law_nothing_takes_no_bytes<'de, T, C: ConfigCore>(m: PhantomData<T>, inp: Input)
    ensures
        <() as SchemaWrite<C>>::emit(&()).err is None,
        <() as SchemaWrite<C>>::emit(&()).bytes.len() == 0,
        <() as SchemaRead<'de, C>>::dec(inp) == Ok::<((), Input), Fault>(((), inp)),
        <PhantomData<T> as SchemaWrite<C>>::emit(&m).err is None,
        <PhantomData<T> as SchemaWrite<C>>::emit(&m).bytes.len() == 0,
        <PhantomData<T> as SchemaRead<'de, C>>::dec(inp) == Ok::<((), Input), Fault>(((), inp)),
        <() as SchemaWrite<C>>::size_err(&()) is None,
        <() as SchemaWrite<C>>::write_lawful(),
        <() as SchemaRead<'de, C>>::read_lawful(),
        <() as RoundTrip<'de, C>>::round_trips(),
        <() as RoundTrip<'de, C>>::src_valid(&()),
        !<() as RoundTrip<'de, C>>::needs_backing(),
        <PhantomData<T> as SchemaWrite<C>>::size_err(&m) is None,
        <PhantomData<T> as SchemaWrite<C>>::write_lawful(),
        <PhantomData<T> as SchemaRead<'de, C>>::read_lawful(),
        <PhantomData<T> as RoundTrip<'de, C>>::round_trips(),
        <PhantomData<T> as RoundTrip<'de, C>>::src_valid(&m),
        !<PhantomData<T> as RoundTrip<'de, C>>::needs_backing(),
        <() as SchemaWrite<C>>::write_meta() == (TypeMeta::Static { size: 0, zero_copy: true }),
        <() as SchemaRead<'de, C>>::read_meta() == (TypeMeta::Static { size: 0, zero_copy: true }),
        <PhantomData<T> as SchemaWrite<C>>::write_meta() == (TypeMeta::Static {
            size: 0,
            zero_copy: true,
        }),
        <PhantomData<T> as SchemaRead<'de, C>>::read_meta() == (TypeMeta::Static {
            size: 0,
            zero_copy: true,
        }),
{
}

/// A floating-point number is laid out as its bits are as a number of fixed width, whatever the
/// layout of integers.
pub proof fn law_f32_is_its_bits<'de, C: ConfigCore>(v: F32Bits, inp: Input)
    ensures
        <F32Bits as SchemaWrite<C>>::emit(&v).err is None,
        <F32Bits as SchemaWrite<C>>::emit(&v).bytes
            == <FixInt as IntEncoding<C::ByteOrder>>::uint_bytes(
            IntWidth::W32,
            v.0 as nat,
        ),
        match <FixInt as IntEncoding<C::ByteOrder>>::uint_dec(IntWidth::W32, inp) {
            Ok((u, rest)) => <F32Bits as SchemaRead<'de, C>>::dec(inp) matches Ok((x, r)) && x
                == u && r
                == rest,
            Err(f) => <F32Bits as SchemaRead<'de, C>>::dec(inp) matches Err(g) && g == f,
        },
        <F32Bits as SchemaRead<'de, C>>::dst_val(&v) == v.0,
        <F32Bits as SchemaWrite<C>>::src_val(&v) == v.0,
        <F32Bits as SchemaWrite<C>>::size_err(&v) is None,
        <F32Bits as SchemaWrite<C>>::write_lawful(),
        <F32Bits as SchemaRead<'de, C>>::read_lawful(),
        <F32Bits as RoundTrip<'de, C>>::round_trips(),
        <F32Bits as RoundTrip<'de, C>>::src_valid(&v),
        !<F32Bits as RoundTrip<'de, C>>::needs_backing(),
        <F32Bits as SchemaWrite<C>>::write_meta() == (TypeMeta::Static {
            size: 4,
            zero_copy: <FixInt as IntEncoding<C::ByteOrder>>::zero_copy(),
        }),
        <F32Bits as SchemaRead<'de, C>>::read_meta() == <F32Bits as SchemaWrite<C>>::write_meta(),
{
    <FixInt as IntEncoding<C::ByteOrder>>::lemma_uint_dec(IntWidth::W32, inp);
}

/// A floating-point number is laid out as its bits are as a number of fixed width, whatever the
/// layout of integers.
pub proof fn law_f64_is_its_bits<'de, C: ConfigCore>(v: F64Bits, inp: Input)
    ensures
        <F64Bits as SchemaWrite<C>>::emit(&v).err is None,
        <F64Bits as SchemaWrite<C>>::emit(&v).bytes
            == <FixInt as IntEncoding<C::ByteOrder>>::uint_bytes(
            IntWidth::W64,
            v.0 as nat,
        ),
        match <FixInt as IntEncoding<C::ByteOrder>>::uint_dec(IntWidth::W64, inp) {
            Ok((u, rest)) => <F64Bits as SchemaRead<'de, C>>::dec(inp) matches Ok((x, r)) && x
                == u && r
                == rest,
            Err(f) => <F64Bits as SchemaRead<'de, C>>::dec(inp) matches Err(g) && g == f,
        },
        <F64Bits as SchemaRead<'de, C>>::dst_val(&v) == v.0,
        <F64Bits as SchemaWrite<C>>::src_val(&v) == v.0,
        <F64Bits as SchemaWrite<C>>::size_err(&v) is None,
        <F64Bits as SchemaWrite<C>>::write_lawful(),
        <F64Bits as SchemaRead<'de, C>>::read_lawful(),
        <F64Bits as RoundTrip<'de, C>>::round_trips(),
        <F64Bits as RoundTrip<'de, C>>::src_valid(&v),
        !<F64Bits as RoundTrip<'de, C>>::needs_backing(),
        <F64Bits as SchemaWrite<C>>::write_meta() == (TypeMeta::Static {
            size: 8,
            zero_copy: <FixInt as IntEncoding<C::ByteOrder>>::zero_copy(),
        }),
        <F64Bits as SchemaRead<'de, C>>::read_meta() == <F64Bits as SchemaWrite<C>>::write_meta(),
{
    <FixInt as IntEncoding<C::ByteOrder>>::lemma_uint_dec(IntWidth::W64, inp);
}

} // verus!
