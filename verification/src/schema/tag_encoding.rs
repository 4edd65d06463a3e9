//! How the tag of a variant is laid out.
use crate::config::ConfigCore;
use crate::error::{tag_encoding_overflow, ReadError, ReadResult, WriteError, WriteResult};
use crate::io::{Reader, Writer};
use crate::len::{
    largest_of_width, lemma_width_dec, lemma_width_round_trip, read_width, size_of_width,
    width_bytes, width_dec, width_max, write_width, LenInt,
};
use crate::model::{lemma_wrote_fail, Emit, Fault, Input};
use crate::schema::int_encoding::IntEncoding;
use crate::schema::TypeMeta;
use vstd::prelude::*;

verus! {

broadcast use {
    crate::model::lemma_follows_transitive,
    crate::model::lemma_follows_reflexive,
};

/// A layout of the tag of a variant, under the configuration `C`.
pub trait TagEncoding<C: ConfigCore> {
    /// Writing the tag `tag`.
    spec fn tag_emit(tag: u32) -> Emit;

    /// Reading a tag.
    spec fn tag_dec(inp: Input) -> Result<(u32, Input), Fault>;

    /// What is known of the size of a tag.
    spec fn tag_meta() -> TypeMeta;

    /// A tag that cannot be written leaves no bytes.
    proof fn lemma_tag_emit(tag: u32)
        ensures
            Self::tag_emit(tag).consistent(),
            Self::tag_emit(tag).weight <= 17,
            !Self::tag_emit(tag).over_limit(),
            Self::tag_meta() matches TypeMeta::Static { size, .. } ==> Self::tag_emit(tag).weight
                == size,
    ;

    /// Reading gives back the tag that was written.
    proof fn lemma_tag_round_trip(tag: u32, rest: Input)
        requires
            Self::tag_emit(tag).ok(),
        ensures
            Self::tag_dec(rest.prepend(Self::tag_emit(tag).bytes)) == Ok::<_, Fault>(
                (tag, rest),
            ),
    ;

    /// Reading a tag takes bytes from the front.
    proof fn lemma_tag_dec(inp: Input)
        ensures
            Self::tag_dec(inp) matches Err(f) ==> f.left.follows(inp),
            Self::tag_dec(inp) matches Ok((tag, rest)) ==> {
                &&& rest.follows(inp)
                &&& Self::tag_meta() matches TypeMeta::Static { size, .. } ==> inp.consumed(rest)
                    == size
            },
    ;

    /// See [`TagEncoding::tag_meta`].
    fn type_meta() -> (m: TypeMeta)
        ensures
            m == Self::tag_meta(),
    ;

    /// The number of bytes of the tag `tag`.
    fn size_of_from_u32(tag: u32) -> (r: WriteResult<usize>)
        ensures
            match Self::tag_emit(tag).err {
                Some(e) => r == Err::<usize, WriteError>(e),
                None => r is Ok && r->Ok_0 == Self::tag_emit(tag).weight,
            },
    ;

    /// Writes the tag `tag`.
    fn write_from_u32<W: Writer>(writer: &mut W, tag: u32) -> (r: WriteResult<()>)
        ensures
            Self::tag_emit(tag).wrote(old(writer).output(), final(writer).output(), r),
    ;

    /// Reads a tag.
    fn read_into_u32<'de, R: Reader<'de>>(reader: &mut R) -> (r: ReadResult<u32>)
        ensures
            final(reader).input().follows(old(reader).input()),
            match Self::tag_dec(old(reader).input()) {
                Ok((tag, rest)) => {
                    &&& r == Ok::<u32, ReadError>(tag)
                    &&& final(reader).input() == rest
                },
                Err(f) => {
                    &&& r == Err::<u32, ReadError>(f.err)
                    &&& final(reader).input() == f.left
                },
            },
    ;
}

/// The tag as an integer, laid out like any other integer.
impl<C: ConfigCore, T: LenInt> TagEncoding<C> for T {
    open spec fn tag_emit(tag: u32) -> Emit {
        if tag <= width_max(T::width()) {
            Emit::done(width_bytes::<C::IntEncoding, C>(T::width(), tag as nat))
        } else {
            Emit::fail(
                WriteError::TagEncodingOverflow(T::max_name()),
                match T::width() {
                    None => 1,
                    Some(w) => if C::IntEncoding::fixed() {
                        w.bytes()
                    } else {
                        0
                    },
                },
            )
        }
    }

    open spec fn tag_dec(inp: Input) -> Result<(u32, Input), Fault> {
        match width_dec::<C::IntEncoding, C>(T::width(), inp) {
            Ok((tag, rest)) => if tag <= u32::MAX {
                Ok((tag as u32, rest))
            } else {
                Err(rest.fault(ReadError::TagEncodingOverflow("u32::MAX")))
            },
            Err(e) => Err(e),
        }
    }

    open spec fn tag_meta() -> TypeMeta {
        match T::width() {
            None => TypeMeta::Static { size: 1, zero_copy: true },
            Some(w) => if C::IntEncoding::fixed() {
                TypeMeta::Static { size: w.bytes() as usize, zero_copy: C::IntEncoding::zero_copy() }
            } else {
                TypeMeta::Dynamic
            },
        }
    }

    proof fn lemma_tag_emit(tag: u32) {
        if tag <= width_max(T::width()) {
            let rest = Input { bytes: Seq::empty(), backing: false };
            lemma_width_round_trip::<C::IntEncoding, C>(T::width(), tag as nat, rest);
            if let Some(w) = T::width() {
                C::IntEncoding::lemma_uint_round_trip(w, tag as nat, rest);
            }
        }
    }

    proof fn lemma_tag_round_trip(tag: u32, rest: Input) {
        lemma_width_round_trip::<C::IntEncoding, C>(T::width(), tag as nat, rest);
    }

    proof fn lemma_tag_dec(inp: Input) {
        lemma_width_dec::<C::IntEncoding, C>(T::width(), inp);
        if let Some(w) = T::width() {
            C::IntEncoding::lemma_uint_dec(w, inp);
        }
    }

    fn type_meta() -> (m: TypeMeta) {
        match T::int_width() {
            None => TypeMeta::Static { size: 1, zero_copy: true },
            Some(w) => if C::IntEncoding::is_fixed() {
                TypeMeta::Static { size: w.size(), zero_copy: C::IntEncoding::is_zero_copy() }
            } else {
                TypeMeta::Dynamic
            },
        }
    }

    fn size_of_from_u32(tag: u32) -> (r: WriteResult<usize>) {
        let w = T::int_width();
        if tag as u128 > largest_of_width(w) {
            return Err(WriteError::from(tag_encoding_overflow(T::int_max_name())));
        }
        Ok(size_of_width::<C::IntEncoding, C>(w, tag as u128))
    }

    fn write_from_u32<W: Writer>(writer: &mut W, tag: u32) -> (r: WriteResult<()>) {
        let w = T::int_width();
        if tag as u128 > largest_of_width(w) {
            proof {
                let e = <T as TagEncoding<C>>::tag_emit(tag);
                lemma_wrote_fail(e.err->0, e.weight, old(writer).output());
            }
            return Err(WriteError::from(tag_encoding_overflow(T::int_max_name())));
        }
        write_width::<C::IntEncoding, C, W>(writer, w, tag as u128)
    }

    fn read_into_u32<'de, R: Reader<'de>>(reader: &mut R) -> (r: ReadResult<u32>) {
        let v: u128 = read_width::<C::IntEncoding, C, R>(reader, T::int_width())?;
        if v <= u32::MAX as u128 {
            Ok(v as u32)
        } else {
            Err(ReadError::from(tag_encoding_overflow("u32::MAX")))
        }
    }
}

} // verus!
