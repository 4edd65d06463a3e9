//! Optional values, and values of one of two types.
use crate::config::{Config, ConfigCore};
use crate::error::{invalid_tag_encoding, ReadError, ReadResult, WriteError, WriteResult};
use crate::io::{Reader, Writer};
use crate::model::{lemma_prepend_prepend, lemma_wrote_first, lemma_wrote_then, Emit, Fault, Input};
use crate::schema::impls::byte::{
    byte_dec, lemma_byte_dec, lemma_byte_round_trip, read_byte, write_byte,
};
use crate::schema::impls::tagged::{
    lemma_tagged_emit, size_of_tagged, tagged_emit, tagged_size_err, write_tagged,
};
use crate::schema::tag_encoding::TagEncoding;
use crate::schema::{Model, RoundTrip, SchemaRead, SchemaWrite, TypeMeta};
use vstd::prelude::*;

verus! {

broadcast use {
    crate::model::lemma_follows_transitive,
    crate::model::lemma_follows_reflexive,
    crate::model::lemma_then_consistent,
};

impl<T: Model> Model for Option<T> {
    type Val = Option<T::Val>;
}

/// An optional value is the byte `0`, or the byte `1` and the value, whatever the layout of tags.
impl<C: ConfigCore, T: SchemaWrite<C>> SchemaWrite<C> for Option<T> {
    type Src = Option<T::Src>;

    open spec fn src_val(src: &Option<T::Src>) -> Option<T::Val> {
        match *src {
            Some(v) => Some(T::src_val(&v)),
            None => None,
        }
    }

    open spec fn emit(src: &Option<T::Src>) -> Emit {
        match *src {
            Some(v) => Emit::done(seq![1u8]).then_emit(T::emit(&v)),
            None => Emit::done(seq![0u8]),
        }
    }

    open spec fn size_err(src: &Option<T::Src>) -> Option<WriteError> {
        match *src {
            Some(v) => T::size_err(&v),
            None => None,
        }
    }

    open spec fn write_meta() -> TypeMeta {
        TypeMeta::Dynamic
    }

    open spec fn write_lawful() -> bool {
        T::write_lawful()
    }

    proof fn lemma_emit(src: &Option<T::Src>) {
        if let Some(v) = *src {
            T::lemma_emit(&v);
        }
    }

    fn type_meta() -> (m: TypeMeta) {
        TypeMeta::Dynamic
    }

    fn size_of(src: &Option<T::Src>) -> (r: WriteResult<usize>) {
        match src {
            Some(value) => {
                let n: usize = T::size_of(value)?;
                match n.checked_add(1) {
                    Some(size) => Ok(size),
                    None => Err(crate::error::write_length_encoding_overflow("usize::MAX")),
                }
            },
            None => Ok(1),
        }
    }

    fn write<W: Writer>(writer: &mut W, src: &Option<T::Src>) -> (r: WriteResult<()>) {
        match src {
            Some(value) => {
                let ghost p0 = writer.output();
                let ghost head = Emit::done(seq![1u8]);
                let first = write_byte(writer, 1);
                let ghost p1 = writer.output();
                match first {
                    Ok(()) => {},
                    Err(e) => {
                        proof {
                            lemma_wrote_first(head, T::emit(value), p0, p1, e);
                        }
                        return Err(e);
                    },
                }
                let second = T::write(writer, value);
                proof {
                    if T::write_lawful() && head.then_emit(T::emit(value)).weight <= usize::MAX {
                        lemma_wrote_then(head, T::emit(value), p0, p1, writer.output(), second);
                    }
                }
                second
            },
            None => write_byte(writer, 0),
        }
    }
}

impl<'de, C: ConfigCore, T: SchemaRead<'de, C>> SchemaRead<'de, C> for Option<T> {
    type Dst = Option<T::Dst>;

    open spec fn dst_val(dst: &Option<T::Dst>) -> Option<T::Val> {
        match *dst {
            Some(v) => Some(T::dst_val(&v)),
            None => None,
        }
    }

    open spec fn dec(inp: Input) -> Result<(Option<T::Val>, Input), Fault> {
        match byte_dec(inp) {
            Ok((b, mid)) => if b == 0 {
                Ok((None, mid))
            } else if b == 1 {
                match T::dec(mid) {
                    Ok((v, rest)) => Ok((Some(v), rest)),
                    Err(e) => Err(e),
                }
            } else {
                Err(mid.fault(ReadError::InvalidTagEncoding(b as usize)))
            },
            Err(e) => Err(e),
        }
    }

    open spec fn read_meta() -> TypeMeta {
        TypeMeta::Dynamic
    }

    open spec fn read_lawful() -> bool {
        T::read_lawful()
    }

    proof fn lemma_dec(inp: Input) {
        lemma_byte_dec(inp);
        if let Ok((b, mid)) = byte_dec(inp) {
            T::lemma_dec(mid);
        }
    }

    fn type_meta() -> (m: TypeMeta) {
        TypeMeta::Dynamic
    }

    fn get<R: Reader<'de>>(reader: &mut R) -> (r: ReadResult<Option<T::Dst>>) {
        let variant: u8 = read_byte(reader)?;
        match variant {
            0 => Ok(None),
            1 => {
                let value = T::get(reader)?;
                Ok(Some(value))
            },
            _ => Err(invalid_tag_encoding(variant as usize)),
        }
    }
}

impl<'de, C: ConfigCore, T: RoundTrip<'de, C>> RoundTrip<'de, C> for Option<T> {
    open spec fn round_trips() -> bool {
        T::round_trips()
    }

    open spec fn src_valid(src: &Option<T::Src>) -> bool {
        *src matches Some(v) ==> T::src_valid(&v)
    }

    open spec fn needs_backing() -> bool {
        T::needs_backing()
    }

    proof fn lemma_round_trip(src: &Option<T::Src>, rest: Input) {
        match *src {
            Some(v) => {
                let mid = rest.prepend(T::emit(&v).bytes);
                lemma_prepend_prepend(rest, seq![1u8], T::emit(&v).bytes);
                lemma_byte_round_trip(1, mid);
                T::lemma_round_trip(&v, rest);
            },
            None => {
                lemma_byte_round_trip(0, rest);
            },
        }
    }
}

/// What is known of a value of one of two types, with a tag in front.
pub open spec fn either_meta(tag: TypeMeta, t: TypeMeta, e: TypeMeta) -> TypeMeta {
    match (tag, t, e) {
        (
            TypeMeta::Static { size: tag_size, .. },
            TypeMeta::Static { size: t_size, .. },
            TypeMeta::Static { size: e_size, .. },
        ) => if t_size == e_size && tag_size + t_size <= usize::MAX {
            TypeMeta::Static { size: (tag_size + t_size) as usize, zero_copy: false }
        } else {
            TypeMeta::Dynamic
        },
        _ => TypeMeta::Dynamic,
    }
}

/// See [`either_meta`].
fn type_meta_of_either(tag: TypeMeta, t: TypeMeta, e: TypeMeta) -> (m: TypeMeta)
    ensures
        m == either_meta(tag, t, e),
{
    match (tag, t, e) {
        (
            TypeMeta::Static { size: tag_size, .. },
            TypeMeta::Static { size: t_size, .. },
            TypeMeta::Static { size: e_size, .. },
        ) => if t_size == e_size {
            match tag_size.checked_add(t_size) {
                Some(size) => TypeMeta::Static { size, zero_copy: false },
                None => TypeMeta::Dynamic,
            }
        } else {
            TypeMeta::Dynamic
        },
        _ => TypeMeta::Dynamic,
    }
}

impl<T: Model, E: Model> Model for Result<T, E> {
    type Val = Result<T::Val, E::Val>;
}

/// A result is the tag `0` and the value, or the tag `1` and the error.
impl<C: Config, T: SchemaWrite<C>, E: SchemaWrite<C>> SchemaWrite<C> for Result<T, E> {
    type Src = Result<T::Src, E::Src>;

    open spec fn src_val(src: &Result<T::Src, E::Src>) -> Result<T::Val, E::Val> {
        match *src {
            Ok(v) => Ok(T::src_val(&v)),
            Err(v) => Err(E::src_val(&v)),
        }
    }

    open spec fn emit(src: &Result<T::Src, E::Src>) -> Emit {
        match *src {
            Ok(v) => tagged_emit::<T, C>(0, &v),
            Err(v) => tagged_emit::<E, C>(1, &v),
        }
    }

    open spec fn size_err(src: &Result<T::Src, E::Src>) -> Option<WriteError> {
        match *src {
            Ok(v) => tagged_size_err::<T, C>(0, &v),
            Err(v) => tagged_size_err::<E, C>(1, &v),
        }
    }

    open spec fn write_meta() -> TypeMeta {
        either_meta(C::TagEncoding::tag_meta(), T::write_meta(), E::write_meta())
    }

    open spec fn write_lawful() -> bool {
        T::write_lawful() && E::write_lawful()
    }

    proof fn lemma_emit(src: &Result<T::Src, E::Src>) {
        match *src {
            Ok(v) => {
                lemma_tagged_emit::<T, C>(0, &v);
            },
            Err(v) => {
                lemma_tagged_emit::<E, C>(1, &v);
            },
        }
    }

    fn type_meta() -> (m: TypeMeta) {
        type_meta_of_either(C::TagEncoding::type_meta(), T::type_meta(), E::type_meta())
    }

    fn size_of(src: &Result<T::Src, E::Src>) -> (r: WriteResult<usize>) {
        match src {
            Ok(value) => size_of_tagged::<T, C>(0, value),
            Err(error) => size_of_tagged::<E, C>(1, error),
        }
    }

    fn write<W: Writer>(writer: &mut W, src: &Result<T::Src, E::Src>) -> (r: WriteResult<()>) {
        match src {
            Ok(value) => write_tagged::<T, C, W>(writer, 0, value),
            Err(error) => write_tagged::<E, C, W>(writer, 1, error),
        }
    }
}

impl<'de, C: Config, T: SchemaRead<'de, C>, E: SchemaRead<'de, C>> SchemaRead<
    'de,
    C,
> for Result<T, E> {
    type Dst = Result<T::Dst, E::Dst>;

    open spec fn dst_val(dst: &Result<T::Dst, E::Dst>) -> Result<T::Val, E::Val> {
        match *dst {
            Ok(v) => Ok(T::dst_val(&v)),
            Err(v) => Err(E::dst_val(&v)),
        }
    }

    open spec fn dec(inp: Input) -> Result<(Result<T::Val, E::Val>, Input), Fault> {
        match C::TagEncoding::tag_dec(inp) {
            Ok((tag, mid)) => if tag == 0 {
                match T::dec(mid) {
                    Ok((v, rest)) => Ok((Ok(v), rest)),
                    Err(e) => Err(e),
                }
            } else if tag == 1 {
                match E::dec(mid) {
                    Ok((v, rest)) => Ok((Err(v), rest)),
                    Err(e) => Err(e),
                }
            } else {
                Err(mid.fault(ReadError::InvalidTagEncoding(tag as usize)))
            },
            Err(e) => Err(e),
        }
    }

    open spec fn read_meta() -> TypeMeta {
        either_meta(C::TagEncoding::tag_meta(), T::read_meta(), E::read_meta())
    }

    open spec fn read_lawful() -> bool {
        T::read_lawful() && E::read_lawful()
    }

    proof fn lemma_dec(inp: Input) {
        C::TagEncoding::lemma_tag_dec(inp);
        if let Ok((tag, mid)) = C::TagEncoding::tag_dec(inp) {
            T::lemma_dec(mid);
            E::lemma_dec(mid);
        }
    }

    fn type_meta() -> (m: TypeMeta) {
        type_meta_of_either(C::TagEncoding::type_meta(), T::type_meta(), E::type_meta())
    }

    fn get<R: Reader<'de>>(reader: &mut R) -> (r: ReadResult<Result<T::Dst, E::Dst>>) {
        let disc: u32 = C::TagEncoding::read_into_u32(reader)?;
        match disc {
            0 => {
                let value = T::get(reader)?;
                Ok(Ok(value))
            },
            1 => {
                let error = E::get(reader)?;
                Ok(Err(error))
            },
            _ => Err(invalid_tag_encoding(disc as usize)),
        }
    }
}

impl<'de, C: Config, T: RoundTrip<'de, C>, E: RoundTrip<'de, C>> RoundTrip<'de, C> for Result<
    T,
    E,
> {
    open spec fn round_trips() -> bool {
        T::round_trips() && E::round_trips()
    }

    open spec fn src_valid(src: &Result<T::Src, E::Src>) -> bool {
        match *src {
            Ok(v) => T::src_valid(&v),
            Err(v) => E::src_valid(&v),
        }
    }

    open spec fn needs_backing() -> bool {
        T::needs_backing() || E::needs_backing()
    }

    proof fn lemma_round_trip(src: &Result<T::Src, E::Src>, rest: Input) {
        match *src {
            Ok(v) => {
                let body = T::emit(&v).bytes;
                lemma_prepend_prepend(rest, C::TagEncoding::tag_emit(0).bytes, body);
                C::TagEncoding::lemma_tag_round_trip(0, rest.prepend(body));
                T::lemma_round_trip(&v, rest);
            },
            Err(v) => {
                let body = E::emit(&v).bytes;
                lemma_prepend_prepend(rest, C::TagEncoding::tag_emit(1).bytes, body);
                C::TagEncoding::lemma_tag_round_trip(1, rest.prepend(body));
                E::lemma_round_trip(&v, rest);
            },
        }
    }
}

} // verus!
