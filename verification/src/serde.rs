//! Writing and reading whole values under the default configuration.
use crate::config::serde::{input_of, limited};
use crate::config::{ConfigCore, DefaultConfig};
use crate::error::{ReadError, ReadResult, WriteError, WriteResult};
use crate::io::{Reader, Writer};
use crate::schema::{SchemaRead, SchemaWrite};
use vstd::prelude::*;

verus! {

/// Schemas by which a whole value can be written.
pub trait Serialize: SchemaWrite<DefaultConfig> + Sized {
    /// The bytes of `src`.
    fn serialize(src: &Self::Src) -> (r: WriteResult<Vec<u8>>)
        ensures
            Self::write_lawful() && Self::emit(src).weight <= usize::MAX ==> match Self::size_err(
                src,
            ) {
                Some(e) => r is Err && r->Err_0 == e,
                None => match Self::emit(src).err {
                    Some(e) => r is Err && r->Err_0 == e,
                    None => r is Ok && r->Ok_0@ == Self::emit(src).bytes,
                },
            },
    {
        <Self as crate::config::serde::Serialize<DefaultConfig>>::serialize(
            src,
            DefaultConfig::default(),
        )
    }

    /// Writes `src` to `writer`.
    fn serialize_into<W: Writer>(writer: &mut W, src: &Self::Src) -> (r: WriteResult<()>)
        ensures
            Self::write_lawful() && Self::emit(src).weight <= usize::MAX ==> Self::emit(src).wrote(
                old(writer).output(),
                final(writer).output(),
                r,
            ),
    {
        <Self as crate::config::serde::Serialize<DefaultConfig>>::serialize_into(
            writer,
            src,
            DefaultConfig::default(),
        )
    }

    /// The number of bytes that `src` takes.
    fn serialized_size(src: &Self::Src) -> (r: WriteResult<u64>)
        ensures
            Self::write_lawful() && Self::emit(src).weight <= usize::MAX ==> match Self::size_err(
                src,
            ) {
                Some(e) => r == Err::<u64, WriteError>(e),
                None => r is Ok && r->Ok_0 == Self::emit(src).weight,
            },
    {
        <Self as crate::config::serde::Serialize<DefaultConfig>>::serialized_size(
            src,
            DefaultConfig::default(),
        )
    }
}

impl<T: SchemaWrite<DefaultConfig>> Serialize for T {

}

/// Schemas by which a whole value can be read.
pub trait Deserialize<'de>: SchemaRead<'de, DefaultConfig> + Sized {
    /// Reads a value from the start of `src`. Bytes that follow it are left.
    fn deserialize(src: &'de [u8]) -> (r: ReadResult<Self::Dst>)
        ensures
            Self::read_lawful() ==> match Self::dec(input_of::<DefaultConfig>(src@)) {
                Ok((v, rest)) => r is Ok && Self::dst_val(&r->Ok_0) == v,
                Err(f) => r is Err && r->Err_0 == f.err,
            },
    {
        <Self as crate::config::serde::Deserialize<'de, DefaultConfig>>::deserialize(
            src,
            DefaultConfig::default(),
        )
    }

    /// Reads a value that takes all of `src`.
    fn deserialize_exact(src: &'de [u8]) -> (r: ReadResult<Self::Dst>)
        ensures
            Self::read_lawful() ==> match Self::dec(input_of::<DefaultConfig>(src@)) {
                Ok((v, rest)) => if input_of::<DefaultConfig>(src@).consumed(rest) < src@.len() {
                    r is Err && r->Err_0 == ReadError::TrailingBytes
                } else {
                    r is Ok && Self::dst_val(&r->Ok_0) == v
                },
                Err(f) => r is Err && r->Err_0 == f.err,
            },
    {
        <Self as crate::config::serde::Deserialize<'de, DefaultConfig>>::deserialize_exact(
            src,
            DefaultConfig::default(),
        )
    }

    /// Reads a value from `reader`.
    fn deserialize_from<R: Reader<'de>>(reader: R) -> (r: ReadResult<Self::Dst>)
        ensures
            Self::read_lawful() ==> match Self::dec(
                limited(DefaultConfig::deserialization_limit(), reader.input()),
            ) {
                Ok((v, rest)) => r is Ok && Self::dst_val(&r->Ok_0) == v,
                Err(f) => r is Err && r->Err_0 == f.err,
            },
    {
        <Self as crate::config::serde::Deserialize<'de, DefaultConfig>>::deserialize_from(
            reader,
            DefaultConfig::default(),
        )
    }
}

impl<'de, T: SchemaRead<'de, DefaultConfig>> Deserialize<'de> for T {

}

/// The bytes of `src`.
pub fn serialize<T>(src: &T) -> (r: WriteResult<Vec<u8>>) where
    T: SchemaWrite<DefaultConfig, Src = T>,

    ensures
        T::write_lawful() && T::emit(src).weight <= usize::MAX ==> match T::size_err(src) {
            Some(e) => r is Err && r->Err_0 == e,
            None => match T::emit(src).err {
                Some(e) => r is Err && r->Err_0 == e,
                None => r is Ok && r->Ok_0@ == T::emit(src).bytes,
            },
        },
{
    <T as Serialize>::serialize(src)
}

/// Writes `src` to `writer`.
pub fn serialize_into<T, W>(writer: &mut W, src: &T) -> (r: WriteResult<()>) where
    T: SchemaWrite<DefaultConfig, Src = T>,
    W: Writer,

    ensures
        T::write_lawful() && T::emit(src).weight <= usize::MAX ==> T::emit(src).wrote(
            old(writer).output(),
            final(writer).output(),
            r,
        ),
{
    <T as Serialize>::serialize_into(writer, src)
}

/// The number of bytes that `src` takes.
pub fn serialized_size<T>(src: &T) -> (r: WriteResult<u64>) where
    T: SchemaWrite<DefaultConfig, Src = T>,

    ensures
        T::write_lawful() && T::emit(src).weight <= usize::MAX ==> match T::size_err(src) {
            Some(e) => r == Err::<u64, WriteError>(e),
            None => r is Ok && r->Ok_0 == T::emit(src).weight,
        },
{
    <T as Serialize>::serialized_size(src)
}

/// Reads a value from the start of `src`. Bytes that follow it are left.
pub fn deserialize<'de, T>(src: &'de [u8]) -> (r: ReadResult<T>) where
    T: SchemaRead<'de, DefaultConfig, Dst = T>,

    ensures
        T::read_lawful() ==> match T::dec(input_of::<DefaultConfig>(src@)) {
            Ok((v, rest)) => r is Ok && T::dst_val(&r->Ok_0) == v,
            Err(f) => r is Err && r->Err_0 == f.err,
        },
{
    <T as Deserialize<'de>>::deserialize(src)
}

/// Reads a value that takes all of `src`.
pub fn deserialize_exact<'de, T>(src: &'de [u8]) -> (r: ReadResult<T>) where
    T: SchemaRead<'de, DefaultConfig, Dst = T>,

    ensures
        T::read_lawful() ==> match T::dec(input_of::<DefaultConfig>(src@)) {
            Ok((v, rest)) => if input_of::<DefaultConfig>(src@).consumed(rest) < src@.len() {
                r is Err && r->Err_0 == ReadError::TrailingBytes
            } else {
                r is Ok && T::dst_val(&r->Ok_0) == v
            },
            Err(f) => r is Err && r->Err_0 == f.err,
        },
{
    <T as Deserialize<'de>>::deserialize_exact(src)
}

/// Reads a value from `reader`.
pub fn deserialize_from<'de, T, R>(reader: R) -> (r: ReadResult<T>) where
    T: SchemaRead<'de, DefaultConfig, Dst = T>,
    R: Reader<'de>,

    ensures
        T::read_lawful() ==> match T::dec(
            limited(DefaultConfig::deserialization_limit(), reader.input()),
        ) {
            Ok((v, rest)) => r is Ok && T::dst_val(&r->Ok_0) == v,
            Err(f) => r is Err && r->Err_0 == f.err,
        },
{
    <T as Deserialize<'de>>::deserialize_from(reader)
}

} // verus!
