//! Schemas: how values of a type are laid out as bytes.
pub mod borrowed_slices;
pub mod byte_order;
pub mod containers;
pub mod context;
pub mod elems;
pub mod external;
pub mod impls;
pub mod int_encoding;
pub mod tag_encoding;
pub mod type_meta;
pub mod zero_copy;

pub use type_meta::TypeMeta;
pub use zero_copy::ZeroCopy;

use crate::config::ConfigCore;
use crate::error::{ReadError, ReadResult, WriteError, WriteResult};
use crate::io::{Reader, Writer};
use crate::model::{Emit, Fault, Input};
use vstd::prelude::*;

verus! {

/// What the values of a schema are, apart from how they are held in memory.
pub trait Model {
    /// The mathematical value.
    type Val;
}

/// Types that can be written.
pub trait SchemaWrite<C: ConfigCore>: Model {
    /// What is written.
    type Src;

    /// The value that `src` holds.
    spec fn src_val(src: &Self::Src) -> Self::Val;

    /// What writing `src` comes to.
    spec fn emit(src: &Self::Src) -> Emit;

    /// Why the size of `src` cannot be told, or `None` if it can.
    spec fn size_err(src: &Self::Src) -> Option<WriteError>;

    /// What is known of the layout.
    spec fn write_meta() -> TypeMeta;

    /// Whether the types involved behave as their contracts need, such as that equal keys of a
    /// hash map have equal hashes.
    spec fn write_lawful() -> bool;

    /// A value that can be written has a size, which is the number of bytes that are written. With
    /// a statically known size, every value has that one, and none asks for too much memory.
    proof fn lemma_emit(src: &Self::Src)
        ensures
            Self::emit(src).consistent(),
            Self::emit(src).ok() ==> Self::size_err(src) is None,
            Self::write_meta() matches TypeMeta::Static { size, .. } ==> {
                &&& Self::emit(src).weight == size
                &&& !Self::emit(src).over_limit()
            },
    ;

    /// What is known of the layout.
    fn type_meta() -> (m: TypeMeta)
        ensures
            m == Self::write_meta(),
    ;

    /// The number of bytes that [`SchemaWrite::write`] writes.
    fn size_of(src: &Self::Src) -> (r: WriteResult<usize>)
        ensures
            Self::write_lawful() && Self::emit(src).weight <= usize::MAX ==> match Self::size_err(
                src,
            ) {
                Some(e) => r == Err::<usize, WriteError>(e),
                None => r is Ok && r->Ok_0 == Self::emit(src).weight,
            },
    ;

    /// Writes `src`.
    fn write<W: Writer>(writer: &mut W, src: &Self::Src) -> (r: WriteResult<()>)
        ensures
            Self::write_lawful() && Self::emit(src).weight <= usize::MAX ==> Self::emit(src).wrote(
                old(writer).output(),
                final(writer).output(),
                r,
            ),
    ;
}

/// Types that can be read.
pub trait SchemaRead<'de, C: ConfigCore>: Model {
    /// What is read.
    type Dst;

    /// The value that `dst` holds.
    spec fn dst_val(dst: &Self::Dst) -> Self::Val;

    /// Reading a value, and what is left after it; or why that fails, and what is left then.
    spec fn dec(inp: Input) -> Result<(Self::Val, Input), Fault>;

    /// What is known of the layout.
    spec fn read_meta() -> TypeMeta;

    /// Whether the types involved behave as their contracts need, such as that equal keys of a
    /// hash map have equal hashes.
    spec fn read_lawful() -> bool;

    /// Reading takes bytes from the front, whether or not it succeeds. With a statically known
    /// size, a value takes that many.
    proof fn lemma_dec(inp: Input)
        ensures
            Self::dec(inp) matches Err(f) ==> f.left.follows(inp),
            Self::dec(inp) matches Ok((v, rest)) ==> {
                &&& rest.follows(inp)
                &&& Self::read_meta() matches TypeMeta::Static { size, .. } ==> inp.consumed(rest)
                    == size
            },
    ;

    /// What is known of the layout.
    fn type_meta() -> (m: TypeMeta)
        ensures
            m == Self::read_meta(),
    ;

    /// Reads a value.
    fn get<R: Reader<'de>>(reader: &mut R) -> (r: ReadResult<Self::Dst>)
        ensures
            final(reader).input().follows(old(reader).input()),
            Self::read_lawful() ==> match Self::dec(old(reader).input()) {
                Ok((v, rest)) => {
                    &&& r is Ok
                    &&& Self::dst_val(&r->Ok_0) == v
                    &&& final(reader).input() == rest
                },
                Err(f) => r is Err && r->Err_0 == f.err && final(reader).input() == f.left,
            },
    ;

    /// Reads a value into `dst`. It is filled if the read succeeds, and left alone if it fails.
    fn read<R: Reader<'de>>(reader: &mut R, dst: &mut Option<Self::Dst>) -> (r: ReadResult<()>)
        ensures
            final(reader).input().follows(old(reader).input()),
            r is Ok ==> *final(dst) is Some,
            r is Err ==> *final(dst) == *old(dst),
            Self::read_lawful() ==> match Self::dec(old(reader).input()) {
                Ok((v, rest)) => {
                    &&& r is Ok
                    &&& Self::dst_val(&(*final(dst))->0) == v
                    &&& final(reader).input() == rest
                },
                Err(f) => {
                    &&& r == Err::<(), ReadError>(f.err)
                    &&& final(reader).input() == f.left
                },
            },
    {
        let value = Self::get(reader)?;
        *dst = Some(value);
        Ok(())
    }
}

/// Types that can be read with something known beforehand, such as a length.
pub trait SchemaReadContext<'de, C: ConfigCore, Ctx>: Model {
    /// What is read.
    type Dst;

    /// The value that `dst` holds.
    spec fn context_val(dst: &Self::Dst) -> Self::Val;

    /// Reading a value, and what is left after it; or why that fails, and what is left then.
    spec fn context_dec(ctx: Ctx, inp: Input) -> Result<(Self::Val, Input), Fault>;

    /// Whether the types involved behave as their contracts need.
    spec fn context_lawful() -> bool;

    /// Reads a value.
    fn get_with_context<R: Reader<'de>>(ctx: Ctx, reader: &mut R) -> (r: ReadResult<Self::Dst>)
        ensures
            final(reader).input().follows(old(reader).input()),
            Self::context_lawful() ==> match Self::context_dec(ctx, old(reader).input()) {
                Ok((v, rest)) => {
                    &&& r is Ok
                    &&& Self::context_val(&r->Ok_0) == v
                    &&& final(reader).input() == rest
                },
                Err(f) => r is Err && r->Err_0 == f.err && final(reader).input() == f.left,
            },
    ;

    /// Reads a value into `dst`. It is filled if the read succeeds, and left alone if it fails.
    fn read_with_context<R: Reader<'de>>(
        ctx: Ctx,
        reader: &mut R,
        dst: &mut Option<Self::Dst>,
    ) -> (r: ReadResult<()>)
        ensures
            final(reader).input().follows(old(reader).input()),
            r is Ok ==> *final(dst) is Some,
            r is Err ==> *final(dst) == *old(dst),
            Self::context_lawful() ==> match Self::context_dec(ctx, old(reader).input()) {
                Ok((v, rest)) => {
                    &&& r is Ok
                    &&& Self::context_val(&(*final(dst))->0) == v
                    &&& final(reader).input() == rest
                },
                Err(f) => {
                    &&& r == Err::<(), ReadError>(f.err)
                    &&& final(reader).input() == f.left
                },
            },
    {
        let value = Self::get_with_context(ctx, reader)?;
        *dst = Some(value);
        Ok(())
    }
}

/// Types that can be read without borrowing from the reader.
pub trait SchemaReadOwned<C: ConfigCore>: for <'de>SchemaRead<'de, C> {

}

impl<T, C: ConfigCore> SchemaReadOwned<C> for T where T: for <'de>SchemaRead<'de, C> {

}

/// Types for which reading gives back what was written.
pub trait RoundTrip<'de, C: ConfigCore>: SchemaWrite<C> + SchemaRead<'de, C> {
    /// What the types involved have to satisfy, such as that what is written and what is read take
    /// up the same memory.
    spec fn round_trips() -> bool;

    /// What is assumed of `src`: that walking a map or a set comes by each of its entries once.
    /// Writing one ensures it.
    spec fn src_valid(src: &Self::Src) -> bool;

    /// Whether the value is read in place, so that only a reader that lends out its bytes will do.
    spec fn needs_backing() -> bool;

    /// Reading gives back the value that was written, and leaves the bytes after it.
    proof fn lemma_round_trip(src: &Self::Src, rest: Input)
        requires
            Self::round_trips(),
            Self::src_valid(src),
            Self::needs_backing() ==> rest.backing,
            Self::emit(src).ok(),
            Self::emit(src).weight <= usize::MAX,
        ensures
            Self::dec(rest.prepend(Self::emit(src).bytes)) == Ok::<_, Fault>(
                (Self::src_val(src), rest),
            ),
    ;
}

} // verus!
