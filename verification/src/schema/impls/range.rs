//! Ranges and their bounds.
use crate::config::{Config, ConfigCore};
use crate::error::{invalid_tag_encoding, ReadError, ReadResult, WriteError, WriteResult};
use crate::io::{Reader, Writer};
use crate::model::{lemma_prepend_prepend, Emit, Fault, Input};
use crate::schema::impls::tagged::{
    lemma_tagged_emit, size_of_tagged, tagged_emit, tagged_size_err, write_tagged,
};
use crate::schema::impls::tuple::{
    lemma_pair_dec, lemma_pair_emit, lemma_pair_round_trip, pair_dec_window, pair_emit, pair_meta,
    pair_size_err, read_pair, size_of_pair, type_meta_of_pair, write_pair_window,
};
use crate::schema::tag_encoding::TagEncoding;
use crate::schema::{Model, RoundTrip, SchemaRead, SchemaWrite, TypeMeta};
use core::ops::{Bound, Range, RangeInclusive};
use vstd::prelude::*;

verus! {

broadcast use {
    crate::model::lemma_follows_transitive,
    crate::model::lemma_follows_reflexive,
    crate::model::lemma_then_consistent,
};

/// `core::ops::Bound`, with its variants.
#[verifier::external_type_specification]
#[verifier::reject_recursive_types(T)]
pub struct ExBound<T>(Bound<T>);

/// `RangeInclusive::start`: the lower end of the range.
pub assume_specification<Idx>[ RangeInclusive::<Idx>::start ](r: &RangeInclusive<Idx>) -> (s: &Idx)
    ensures
        *s == r@.start,
;

/// `RangeInclusive::end`: the upper end of the range.
pub assume_specification<Idx>[ RangeInclusive::<Idx>::end ](r: &RangeInclusive<Idx>) -> (s: &Idx)
    ensures
        *s == r@.end,
;

impl<Idx: Model> Model for Range<Idx> {
    type Val = (Idx::Val, Idx::Val);
}

/// A range is its start and its end.
impl<C: ConfigCore, Idx: SchemaWrite<C>> SchemaWrite<C> for Range<Idx> {
    type Src = Range<Idx::Src>;

    open spec fn src_val(src: &Range<Idx::Src>) -> (Idx::Val, Idx::Val) {
        (Idx::src_val(&src.start), Idx::src_val(&src.end))
    }

    open spec fn emit(src: &Range<Idx::Src>) -> Emit {
        pair_emit::<Idx, Idx, C>(&src.start, &src.end)
    }

    open spec fn size_err(src: &Range<Idx::Src>) -> Option<WriteError> {
        pair_size_err::<Idx, Idx, C>(&src.start, &src.end)
    }

    open spec fn write_meta() -> TypeMeta {
        pair_meta(Idx::write_meta(), Idx::write_meta())
    }

    open spec fn write_lawful() -> bool {
        Idx::write_lawful()
    }

    proof fn lemma_emit(src: &Range<Idx::Src>) {
        lemma_pair_emit::<Idx, Idx, C>(&src.start, &src.end);
    }

    fn type_meta() -> (m: TypeMeta) {
        type_meta_of_pair(Idx::type_meta(), Idx::type_meta())
    }

    fn size_of(src: &Range<Idx::Src>) -> (r: WriteResult<usize>) {
        size_of_pair::<Idx, Idx, C>(&src.start, &src.end)
    }

    fn write<W: Writer>(writer: &mut W, src: &Range<Idx::Src>) -> (r: WriteResult<()>) {
        write_pair_window::<Idx, Idx, C, W>(writer, &src.start, &src.end)
    }
}

impl<'de, C: ConfigCore, Idx: SchemaRead<'de, C>> SchemaRead<'de, C> for Range<Idx> {
    type Dst = Range<Idx::Dst>;

    open spec fn dst_val(dst: &Range<Idx::Dst>) -> (Idx::Val, Idx::Val) {
        (Idx::dst_val(&dst.start), Idx::dst_val(&dst.end))
    }

    open spec fn dec(inp: Input) -> Result<((Idx::Val, Idx::Val), Input), Fault> {
        pair_dec_window::<Idx, Idx, C>(inp)
    }

    open spec fn read_meta() -> TypeMeta {
        pair_meta(Idx::read_meta(), Idx::read_meta())
    }

    open spec fn read_lawful() -> bool {
        Idx::read_lawful()
    }

    proof fn lemma_dec(inp: Input) {
        lemma_pair_dec::<Idx, Idx, C>(inp);
    }

    fn type_meta() -> (m: TypeMeta) {
        type_meta_of_pair(Idx::type_meta(), Idx::type_meta())
    }

    fn get<R: Reader<'de>>(reader: &mut R) -> (r: ReadResult<Range<Idx::Dst>>) {
        let (start, end) = read_pair::<Idx, Idx, C, R>(reader)?;
        Ok(Range { start, end })
    }
}

impl<'de, C: ConfigCore, Idx: RoundTrip<'de, C>> RoundTrip<'de, C> for Range<Idx> {
    open spec fn round_trips() -> bool {
        Idx::round_trips()
    }

    open spec fn src_valid(src: &Range<Idx::Src>) -> bool {
        Idx::src_valid(&src.start) && Idx::src_valid(&src.end)
    }

    open spec fn needs_backing() -> bool {
        Idx::needs_backing()
    }

    proof fn lemma_round_trip(src: &Range<Idx::Src>, rest: Input) {
        lemma_pair_round_trip::<Idx, Idx, C>(&src.start, &src.end, rest);
    }
}

impl<Idx: Model> Model for RangeInclusive<Idx> {
    type Val = (Idx::Val, Idx::Val);
}

/// As a [`Range`]. Whether it has been iterated over to the end is not kept.
impl<C: ConfigCore, Idx: SchemaWrite<C>> SchemaWrite<C> for RangeInclusive<Idx> {
    type Src = RangeInclusive<Idx::Src>;

    open spec fn src_val(src: &RangeInclusive<Idx::Src>) -> (Idx::Val, Idx::Val) {
        (Idx::src_val(&src@.start), Idx::src_val(&src@.end))
    }

    open spec fn emit(src: &RangeInclusive<Idx::Src>) -> Emit {
        pair_emit::<Idx, Idx, C>(&src@.start, &src@.end)
    }

    open spec fn size_err(src: &RangeInclusive<Idx::Src>) -> Option<WriteError> {
        match pair_meta(Idx::write_meta(), Idx::write_meta()) {
            TypeMeta::Static { .. } => None,
            TypeMeta::Dynamic => pair_size_err::<Idx, Idx, C>(&src@.start, &src@.end),
        }
    }

    open spec fn write_meta() -> TypeMeta {
        pair_meta(Idx::write_meta(), Idx::write_meta())
    }

    open spec fn write_lawful() -> bool {
        Idx::write_lawful()
    }

    proof fn lemma_emit(src: &RangeInclusive<Idx::Src>) {
        lemma_pair_emit::<Idx, Idx, C>(&src@.start, &src@.end);
    }

    fn type_meta() -> (m: TypeMeta) {
        type_meta_of_pair(Idx::type_meta(), Idx::type_meta())
    }

    fn size_of(src: &RangeInclusive<Idx::Src>) -> (r: WriteResult<usize>) {
        if let TypeMeta::Static { size, .. } = type_meta_of_pair(
            Idx::type_meta(),
            Idx::type_meta(),
        ) {
            proof {
                lemma_pair_emit::<Idx, Idx, C>(&src@.start, &src@.end);
            }
            return Ok(size);
        }
        size_of_pair::<Idx, Idx, C>(src.start(), src.end())
    }

    fn write<W: Writer>(writer: &mut W, src: &RangeInclusive<Idx::Src>) -> (r: WriteResult<()>) {
        write_pair_window::<Idx, Idx, C, W>(writer, src.start(), src.end())
    }
}

impl<'de, C: ConfigCore, Idx: SchemaRead<'de, C>> SchemaRead<'de, C> for RangeInclusive<Idx> {
    type Dst = RangeInclusive<Idx::Dst>;

    open spec fn dst_val(dst: &RangeInclusive<Idx::Dst>) -> (Idx::Val, Idx::Val) {
        (Idx::dst_val(&dst@.start), Idx::dst_val(&dst@.end))
    }

    open spec fn dec(inp: Input) -> Result<((Idx::Val, Idx::Val), Input), Fault> {
        pair_dec_window::<Idx, Idx, C>(inp)
    }

    open spec fn read_meta() -> TypeMeta {
        pair_meta(Idx::read_meta(), Idx::read_meta())
    }

    open spec fn read_lawful() -> bool {
        Idx::read_lawful()
    }

    proof fn lemma_dec(inp: Input) {
        lemma_pair_dec::<Idx, Idx, C>(inp);
    }

    fn type_meta() -> (m: TypeMeta) {
        type_meta_of_pair(Idx::type_meta(), Idx::type_meta())
    }

    /// No range that was read has been walked through.
    fn get<R: Reader<'de>>(reader: &mut R) -> (r: ReadResult<RangeInclusive<Idx::Dst>>)
        ensures
            r matches Ok(range) ==> !range@.exhausted,
    {
        let (start, end) = read_pair::<Idx, Idx, C, R>(reader)?;
        Ok(RangeInclusive::new(start, end))
    }
}

impl<'de, C: ConfigCore, Idx: RoundTrip<'de, C>> RoundTrip<'de, C> for RangeInclusive<Idx> {
    open spec fn round_trips() -> bool {
        Idx::round_trips()
    }

    open spec fn src_valid(src: &RangeInclusive<Idx::Src>) -> bool {
        Idx::src_valid(&src@.start) && Idx::src_valid(&src@.end)
    }

    open spec fn needs_backing() -> bool {
        Idx::needs_backing()
    }

    proof fn lemma_round_trip(src: &RangeInclusive<Idx::Src>, rest: Input) {
        lemma_pair_round_trip::<Idx, Idx, C>(&src@.start, &src@.end, rest);
    }
}

impl<T: Model> Model for Bound<T> {
    type Val = Bound<T::Val>;
}

/// A bound is the tag `0` if there is none, or the tag `1` or `2` and the value that it includes
/// or excludes.
impl<C: Config, T: SchemaWrite<C>> SchemaWrite<C> for Bound<T> {
    type Src = Bound<T::Src>;

    open spec fn src_val(src: &Bound<T::Src>) -> Bound<T::Val> {
        match *src {
            Bound::Unbounded => Bound::Unbounded,
            Bound::Included(v) => Bound::Included(T::src_val(&v)),
            Bound::Excluded(v) => Bound::Excluded(T::src_val(&v)),
        }
    }

    open spec fn emit(src: &Bound<T::Src>) -> Emit {
        match *src {
            Bound::Unbounded => C::TagEncoding::tag_emit(0),
            Bound::Included(v) => tagged_emit::<T, C>(1, &v),
            Bound::Excluded(v) => tagged_emit::<T, C>(2, &v),
        }
    }

    open spec fn size_err(src: &Bound<T::Src>) -> Option<WriteError> {
        match *src {
            Bound::Unbounded => C::TagEncoding::tag_emit(0).err,
            Bound::Included(v) => tagged_size_err::<T, C>(1, &v),
            Bound::Excluded(v) => tagged_size_err::<T, C>(2, &v),
        }
    }

    open spec fn write_meta() -> TypeMeta {
        TypeMeta::Dynamic
    }

    open spec fn write_lawful() -> bool {
        T::write_lawful()
    }

    proof fn lemma_emit(src: &Bound<T::Src>) {
        match *src {
            Bound::Unbounded => {
                C::TagEncoding::lemma_tag_emit(0);
            },
            Bound::Included(v) => {
                lemma_tagged_emit::<T, C>(1, &v);
            },
            Bound::Excluded(v) => {
                lemma_tagged_emit::<T, C>(2, &v);
            },
        }
    }

    fn type_meta() -> (m: TypeMeta) {
        TypeMeta::Dynamic
    }

    fn size_of(src: &Bound<T::Src>) -> (r: WriteResult<usize>) {
        match src {
            Bound::Unbounded => C::TagEncoding::size_of_from_u32(0),
            Bound::Included(value) => size_of_tagged::<T, C>(1, value),
            Bound::Excluded(value) => size_of_tagged::<T, C>(2, value),
        }
    }

    fn write<W: Writer>(writer: &mut W, src: &Bound<T::Src>) -> (r: WriteResult<()>) {
        match src {
            Bound::Unbounded => C::TagEncoding::write_from_u32(writer, 0),
            Bound::Included(value) => write_tagged::<T, C, W>(writer, 1, value),
            Bound::Excluded(value) => write_tagged::<T, C, W>(writer, 2, value),
        }
    }
}

impl<'de, C: Config, T: SchemaRead<'de, C>> SchemaRead<'de, C> for Bound<T> {
    type Dst = Bound<T::Dst>;

    open spec fn dst_val(dst: &Bound<T::Dst>) -> Bound<T::Val> {
        match *dst {
            Bound::Unbounded => Bound::Unbounded,
            Bound::Included(v) => Bound::Included(T::dst_val(&v)),
            Bound::Excluded(v) => Bound::Excluded(T::dst_val(&v)),
        }
    }

    open spec fn dec(inp: Input) -> Result<(Bound<T::Val>, Input), Fault> {
        match C::TagEncoding::tag_dec(inp) {
            Ok((tag, mid)) => if tag == 0 {
                Ok((Bound::Unbounded, mid))
            } else if tag == 1 {
                match T::dec(mid) {
                    Ok((v, rest)) => Ok((Bound::Included(v), rest)),
                    Err(e) => Err(e),
                }
            } else if tag == 2 {
                match T::dec(mid) {
                    Ok((v, rest)) => Ok((Bound::Excluded(v), rest)),
                    Err(e) => Err(e),
                }
            } else {
                Err(mid.fault(ReadError::InvalidTagEncoding(tag as usize)))
            },
            Err(e) => Err(e),
        }
    }

    open spec fn read_meta() -> TypeMeta {
        TypeMeta::Dynamic
    }

    open spec fn read_lawful() -> bool {
        T::read_lawful()
    }

    proof fn lemma_dec(inp: Input) {
        C::TagEncoding::lemma_tag_dec(inp);
        if let Ok((tag, mid)) = C::TagEncoding::tag_dec(inp) {
            T::lemma_dec(mid);
        }
    }

    fn type_meta() -> (m: TypeMeta) {
        TypeMeta::Dynamic
    }

    fn get<R: Reader<'de>>(reader: &mut R) -> (r: ReadResult<Bound<T::Dst>>) {
        let disc: u32 = C::TagEncoding::read_into_u32(reader)?;
        match disc {
            0 => Ok(Bound::Unbounded),
            1 => {
                let value = T::get(reader)?;
                Ok(Bound::Included(value))
            },
            2 => {
                let value = T::get(reader)?;
                Ok(Bound::Excluded(value))
            },
            _ => Err(invalid_tag_encoding(disc as usize)),
        }
    }
}

impl<'de, C: Config, T: RoundTrip<'de, C>> RoundTrip<'de, C> for Bound<T> {
    open spec fn round_trips() -> bool {
        T::round_trips()
    }

    open spec fn src_valid(src: &Bound<T::Src>) -> bool {
        match *src {
            Bound::Unbounded => true,
            Bound::Included(v) => T::src_valid(&v),
            Bound::Excluded(v) => T::src_valid(&v),
        }
    }

    open spec fn needs_backing() -> bool {
        T::needs_backing()
    }

    proof fn lemma_round_trip(src: &Bound<T::Src>, rest: Input) {
        match *src {
            Bound::Unbounded => {
                C::TagEncoding::lemma_tag_round_trip(0, rest);
            },
            Bound::Included(v) => {
                let body = T::emit(&v).bytes;
                lemma_prepend_prepend(rest, C::TagEncoding::tag_emit(1).bytes, body);
                C::TagEncoding::lemma_tag_round_trip(1, rest.prepend(body));
                T::lemma_round_trip(&v, rest);
            },
            Bound::Excluded(v) => {
                let body = T::emit(&v).bytes;
                lemma_prepend_prepend(rest, C::TagEncoding::tag_emit(2).bytes, body);
                C::TagEncoding::lemma_tag_round_trip(2, rest.prepend(body));
                T::lemma_round_trip(&v, rest);
            },
        }
    }
}

} // verus!
