//! Values with a tag in front that says which variant they are.
use crate::config::Config;
use crate::error::{WriteError, WriteResult};
use crate::io::Writer;
use crate::model::{lemma_wrote_first, lemma_wrote_then, Emit};
use crate::schema::tag_encoding::TagEncoding;
use crate::schema::{SchemaWrite, TypeMeta};
use vstd::prelude::*;

verus! {

broadcast use crate::model::lemma_then_consistent;

/// Writing the tag `tag` and then `src`.
pub open spec fn tagged_emit<T: SchemaWrite<C>, C: Config>(tag: u32, src: &T::Src) -> Emit {
    C::TagEncoding::tag_emit(tag).then_emit(T::emit(src))
}

/// Why the size of the tag `tag` and `src` cannot be told.
pub open spec fn tagged_size_err<T: SchemaWrite<C>, C: Config>(tag: u32, src: &T::Src) -> Option<
    WriteError,
> {
    match C::TagEncoding::tag_emit(tag).err {
        Some(e) => Some(e),
        None => T::size_err(src),
    }
}

pub proof fn lemma_tagged_emit<T: SchemaWrite<C>, C: Config>(tag: u32, src: &T::Src)
    ensures
        tagged_emit::<T, C>(tag, src).consistent(),
        tagged_emit::<T, C>(tag, src).ok() ==> tagged_size_err::<T, C>(tag, src) is None,
        (C::TagEncoding::tag_meta(), T::write_meta()) matches (
            TypeMeta::Static { size: tag_size, .. },
            TypeMeta::Static { size, .. },
        ) ==> {
            &&& tagged_emit::<T, C>(tag, src).weight == tag_size + size
            &&& !tagged_emit::<T, C>(tag, src).over_limit()
        },
{
    C::TagEncoding::lemma_tag_emit(tag);
    T::lemma_emit(src);
}

/// Writes the tag `tag` and then `src`.
pub fn write_tagged<T: SchemaWrite<C>, C: Config, W: Writer>(
    writer: &mut W,
    tag: u32,
    src: &T::Src,
) -> (r: WriteResult<()>)
    ensures
        T::write_lawful() && tagged_emit::<T, C>(tag, src).weight <= usize::MAX ==> tagged_emit::<
            T,
            C,
        >(tag, src).wrote(old(writer).output(), final(writer).output(), r),
{
    let ghost p0 = writer.output();
    let first = C::TagEncoding::write_from_u32(writer, tag);
    let ghost p1 = writer.output();
    let ghost head = C::TagEncoding::tag_emit(tag);
    proof {
        C::TagEncoding::lemma_tag_emit(tag);
    }
    match first {
        Ok(()) => {},
        Err(e) => {
            proof {
                lemma_wrote_first(head, T::emit(src), p0, p1, e);
            }
            return Err(e);
        },
    }
    let second = T::write(writer, src);
    proof {
        if T::write_lawful() && tagged_emit::<T, C>(tag, src).weight <= usize::MAX {
            lemma_wrote_then(head, T::emit(src), p0, p1, writer.output(), second);
        }
    }
    second
}

/// The number of bytes of the tag `tag` and `src` together.
pub fn size_of_tagged<T: SchemaWrite<C>, C: Config>(tag: u32, src: &T::Src) -> (r: WriteResult<
    usize,
>)
    ensures
        T::write_lawful() && tagged_emit::<T, C>(tag, src).weight <= usize::MAX
            ==> match tagged_size_err::<T, C>(tag, src) {
            Some(e) => r == Err::<usize, WriteError>(e),
            None => r is Ok && r->Ok_0 == tagged_emit::<T, C>(tag, src).weight,
        },
{
    let n: usize = C::TagEncoding::size_of_from_u32(tag)?;
    let m: usize = T::size_of(src)?;
    match n.checked_add(m) {
        Some(size) => Ok(size),
        None => Err(crate::error::write_length_encoding_overflow("usize::MAX")),
    }
}

} // verus!
