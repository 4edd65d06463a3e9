//! Writing and reading whole values under a chosen configuration.
use crate::config::ConfigCore;
use crate::error::{trailing_bytes, ReadError, ReadResult, WriteError, WriteResult};
use crate::io::{LimitReader, Reader, Writer};
use crate::model::Input;
use crate::schema::{SchemaRead, SchemaWrite};
use vstd::prelude::*;

verus! {

/// What can be read of `inp` under a limit on the bytes that are read.
pub open spec fn limited(limit: Option<usize>, inp: Input) -> Input {
    match limit {
        Some(n) => if n < inp.bytes.len() {
            Input { bytes: inp.bytes.take(n as int), backing: inp.backing }
        } else {
            inp
        },
        None => inp,
    }
}

/// What can be read of `bytes` under the configuration `C`.
pub open spec fn input_of<C: ConfigCore>(bytes: Seq<u8>) -> Input {
    limited(C::deserialization_limit(), Input { bytes, backing: true })
}

/// Schemas by which a whole value can be written.
pub trait Serialize<C: ConfigCore>: SchemaWrite<C> + Sized {
    /// The bytes of `src`.
    fn serialize(src: &Self::Src, config: C) -> (r: WriteResult<Vec<u8>>)
        ensures
            Self::write_lawful() && Self::emit(src).weight <= usize::MAX ==> match Self::size_err(
                src,
            ) {
                Some(e) => r is Err && r->Err_0 == e,
                None => match Self::emit(src).err {
                    Some(e) => r is Err && r->Err_0 == e,
                    None => r is Ok && r->Ok_0@ == Self::emit(src).bytes,
                },
            },
    {
        let size: usize = Self::size_of(src)?;
        let mut out: Vec<u8> = Vec::new();
        let r = Self::write(&mut out, src);
        proof {
            Self::lemma_emit(src);
            let e = Self::emit(src);
            assert(e.bytes.take(e.bytes.len() as int) =~= e.bytes);
            assert(Seq::<u8>::empty() + e.bytes =~= e.bytes);
        }
        match r {
            Ok(()) => Ok(out),
            Err(e) => Err(e),
        }
    }

    /// Writes `src` to `writer`.
    fn serialize_into<W: Writer>(writer: &mut W, src: &Self::Src, config: C) -> (r: WriteResult<()>)
        ensures
            Self::write_lawful() && Self::emit(src).weight <= usize::MAX ==> Self::emit(src).wrote(
                old(writer).output(),
                final(writer).output(),
                r,
            ),
    {
        Self::write(writer, src)
    }

    /// The number of bytes that `src` takes.
    fn serialized_size(src: &Self::Src, config: C) -> (r: WriteResult<u64>)
        ensures
            Self::write_lawful() && Self::emit(src).weight <= usize::MAX ==> match Self::size_err(
                src,
            ) {
                Some(e) => r == Err::<u64, WriteError>(e),
                None => r is Ok && r->Ok_0 == Self::emit(src).weight,
            },
    {
        let n: usize = Self::size_of(src)?;
        Ok(n as u64)
    }
}

impl<C: ConfigCore, T: SchemaWrite<C>> Serialize<C> for T {

}

/// Schemas by which a whole value can be read.
pub trait Deserialize<'de, C: ConfigCore>: SchemaRead<'de, C> + Sized {
    /// Reads a value from the start of `src`. Bytes that follow it are left.
    fn deserialize(src: &'de [u8], config: C) -> (r: ReadResult<Self::Dst>)
        ensures
            Self::read_lawful() ==> match Self::dec(input_of::<C>(src@)) {
                Ok((v, rest)) => r is Ok && Self::dst_val(&r->Ok_0) == v,
                Err(f) => r is Err && r->Err_0 == f.err,
            },
    {
        match C::deserialization_size_limit() {
            Some(limit) => {
                let mut reader = LimitReader { inner: src, left: limit };
                Self::get(&mut reader)
            },
            None => {
                let mut reader: &'de [u8] = src;
                Self::get(&mut reader)
            },
        }
    }

    /// Reads a value that takes all of `src`.
    fn deserialize_exact(src: &'de [u8], config: C) -> (r: ReadResult<Self::Dst>)
        ensures
            Self::read_lawful() ==> match Self::dec(input_of::<C>(src@)) {
                Ok((v, rest)) => if input_of::<C>(src@).consumed(rest) < src@.len() {
                    r is Err && r->Err_0 == ReadError::TrailingBytes
                } else {
                    r is Ok && Self::dst_val(&r->Ok_0) == v
                },
                Err(f) => r is Err && r->Err_0 == f.err,
            },
    {
        match C::deserialization_size_limit() {
            Some(limit) => {
                let mut reader = LimitReader { inner: src, left: limit };
                let value = Self::get(&mut reader)?;
                if limit < src.len() || reader.expect_available(1).is_ok() {
                    return Err(trailing_bytes());
                }
                Ok(value)
            },
            None => {
                let mut reader: &'de [u8] = src;
                let value = Self::get(&mut reader)?;
                if reader.len() > 0 {
                    return Err(trailing_bytes());
                }
                Ok(value)
            },
        }
    }

    /// Reads a value from `reader`.
    fn deserialize_from<R: Reader<'de>>(reader: R, config: C) -> (r: ReadResult<Self::Dst>)
        ensures
            Self::read_lawful() ==> match Self::dec(
                limited(C::deserialization_limit(), reader.input()),
            ) {
                Ok((v, rest)) => r is Ok && Self::dst_val(&r->Ok_0) == v,
                Err(f) => r is Err && r->Err_0 == f.err,
            },
    {
        match C::deserialization_size_limit() {
            Some(limit) => {
                let mut reader = LimitReader { inner: reader, left: limit };
                Self::get(&mut reader)
            },
            None => {
                let mut reader = reader;
                Self::get(&mut reader)
            },
        }
    }
}

impl<'de, C: ConfigCore, T: SchemaRead<'de, C>> Deserialize<'de, C> for T {

}

/// The bytes of `src`.
pub fn serialize<T, C>(src: &T, config: C) -> (r: WriteResult<Vec<u8>>) where
    C: ConfigCore,
    T: SchemaWrite<C, Src = T>,

    ensures
        T::write_lawful() && T::emit(src).weight <= usize::MAX ==> match T::size_err(src) {
            Some(e) => r is Err && r->Err_0 == e,
            None => match T::emit(src).err {
                Some(e) => r is Err && r->Err_0 == e,
                None => r is Ok && r->Ok_0@ == T::emit(src).bytes,
            },
        },
{
    <T as Serialize<C>>::serialize(src, config)
}

/// Writes `src` to `writer`.
pub fn serialize_into<T, C, W>(writer: &mut W, src: &T, config: C) -> (r: WriteResult<()>) where
    C: ConfigCore,
    T: SchemaWrite<C, Src = T>,
    W: Writer,

    ensures
        T::write_lawful() && T::emit(src).weight <= usize::MAX ==> T::emit(src).wrote(
            old(writer).output(),
            final(writer).output(),
            r,
        ),
{
    <T as Serialize<C>>::serialize_into(writer, src, config)
}

/// The number of bytes that `src` takes.
pub fn serialized_size<T, C>(src: &T, config: C) -> (r: WriteResult<u64>) where
    C: ConfigCore,
    T: SchemaWrite<C, Src = T>,

    ensures
        T::write_lawful() && T::emit(src).weight <= usize::MAX ==> match T::size_err(src) {
            Some(e) => r == Err::<u64, WriteError>(e),
            None => r is Ok && r->Ok_0 == T::emit(src).weight,
        },
{
    <T as Serialize<C>>::serialized_size(src, config)
}

/// Reads a value from the start of `src`. Bytes that follow it are left.
pub fn deserialize<'de, T, C>(src: &'de [u8], config: C) -> (r: ReadResult<T>) where
    C: ConfigCore,
    T: SchemaRead<'de, C, Dst = T>,

    ensures
        T::read_lawful() ==> match T::dec(input_of::<C>(src@)) {
            Ok((v, rest)) => r is Ok && T::dst_val(&r->Ok_0) == v,
            Err(f) => r is Err && r->Err_0 == f.err,
        },
{
    <T as Deserialize<'de, C>>::deserialize(src, config)
}

/// Reads a value that takes all of `src`.
pub fn deserialize_exact<'de, T, C>(src: &'de [u8], config: C) -> (r: ReadResult<T>) where
    C: ConfigCore,
    T: SchemaRead<'de, C, Dst = T>,

    ensures
        T::read_lawful() ==> match T::dec(input_of::<C>(src@)) {
            Ok((v, rest)) => if input_of::<C>(src@).consumed(rest) < src@.len() {
                r is Err && r->Err_0 == ReadError::TrailingBytes
            } else {
                r is Ok && T::dst_val(&r->Ok_0) == v
            },
            Err(f) => r is Err && r->Err_0 == f.err,
        },
{
    <T as Deserialize<'de, C>>::deserialize_exact(src, config)
}

/// Reads a value from `reader`.
pub fn deserialize_from<'de, T, C, R>(reader: R, config: C) -> (r: ReadResult<T>) where
    C: ConfigCore,
    T: SchemaRead<'de, C, Dst = T>,
    R: Reader<'de>,

    ensures
        T::read_lawful() ==> match T::dec(limited(C::deserialization_limit(), reader.input())) {
            Ok((v, rest)) => r is Ok && T::dst_val(&r->Ok_0) == v,
            Err(f) => r is Err && r->Err_0 == f.err,
        },
{
    <T as Deserialize<'de, C>>::deserialize_from(reader, config)
}

} // verus!
