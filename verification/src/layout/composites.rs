//! What the bytes of values made of other values are.
use crate::config::{Config, ConfigCore};
use crate::error::{ReadError, WriteError};
use crate::model::{Emit, Fault, Input};
use crate::schema::impls::guard::{
    CellContents, Guarded, MutexGuard, RefCellGuard, RwLockGuard,
};
use crate::schema::impls::nonzero::{NonZero, Number};
use crate::schema::tag_encoding::TagEncoding;
use crate::schema::{RoundTrip, SchemaRead, SchemaWrite, TypeMeta};
use core::ops::{Bound, Range, RangeInclusive};
use std::rc::Rc;
use std::sync::Arc;
use vstd::prelude::*;

verus! {

/// Of two pieces that are written one after the other, the second begins where the first ends, the
/// first error of the two stands, and the size is the sum.
pub proof fn law_one_after_the_other(a: Emit, b: Emit)
    ensures
        a.then_emit(b).err == (if a.err is Some {
            a.err
        } else {
            b.err
        }),
        a.then_emit(b).bytes == (if a.err is Some {
            a.bytes
        } else {
            a.bytes + b.bytes
        }),
        a.then_emit(b).weight == a.weight + b.weight,
{
}

/// A missing value is the byte `0`, and a value that is there is the byte `1` and then the value,
/// whatever the layout of tags.
pub proof fn law_option_bytes<C: ConfigCore, T: SchemaWrite<C>>(v: T::Src)
    ensures
        <Option<T> as SchemaWrite<C>>::emit(&None).err is None,
        <Option<T> as SchemaWrite<C>>::emit(&None).bytes == seq![0u8],
        <Option<T> as SchemaWrite<C>>::size_err(&None) is None,
        <Option<T> as SchemaWrite<C>>::src_val(&None) is None,
        <Option<T> as SchemaWrite<C>>::emit(&Some(v)).err == T::emit(&v).err,
        <Option<T> as SchemaWrite<C>>::emit(&Some(v)).bytes == seq![1u8] + T::emit(&v).bytes,
        <Option<T> as SchemaWrite<C>>::emit(&Some(v)).weight == 1 + T::emit(&v).weight,
        <Option<T> as SchemaWrite<C>>::size_err(&Some(v)) == T::size_err(&v),
        <Option<T> as SchemaWrite<C>>::src_val(&Some(v)) == Some(T::src_val(&v)),
        <Option<T> as SchemaWrite<C>>::write_lawful() == T::write_lawful(),
        <Option<T> as SchemaWrite<C>>::write_meta() is Dynamic,
{
}

/// An optional value is read by its first byte, of which only `0` and `1` stand for anything.
pub proof fn law_option_reads<'de, C: ConfigCore, T: SchemaRead<'de, C>>(v: T::Dst, inp: Input)
    ensures
        inp.bytes.len() == 0 ==> <Option<T> as SchemaRead<'de, C>>::dec(inp) == Err::<
            (Option<T::Val>, Input),
            Fault,
        >((Fault { err: ReadError::Io(crate::io::ReadError::ReadSizeLimit(1)), left: inp })),
        inp.bytes.len() > 0 ==> {
            let tail = Input { bytes: inp.bytes.skip(1), backing: inp.backing };
            let r = <Option<T> as SchemaRead<'de, C>>::dec(inp);
            &&& inp.bytes[0] == 0 ==> r == Ok::<(Option<T::Val>, Input), Fault>((None, tail))
            &&& inp.bytes[0] == 1 ==> r == match T::dec(tail) {
                Ok((x, rest)) => Ok::<(Option<T::Val>, Input), Fault>((Some(x), rest)),
                Err(f) => Err(f),
            }
            &&& inp.bytes[0] > 1 ==> r == Err::<(Option<T::Val>, Input), Fault>(
                (Fault { err: ReadError::InvalidTagEncoding(inp.bytes[0] as usize), left: tail }),
            )
        },
        <Option<T> as SchemaRead<'de, C>>::dst_val(&None) is None,
        <Option<T> as SchemaRead<'de, C>>::dst_val(&Some(v)) == Some(T::dst_val(&v)),
        <Option<T> as SchemaRead<'de, C>>::read_lawful() == T::read_lawful(),
        <Option<T> as SchemaRead<'de, C>>::read_meta() is Dynamic,
{
}

/// A result is the tag `0` and then the value, or the tag `1` and then the error.
pub proof fn law_result_bytes<C: Config, T: SchemaWrite<C>, E: SchemaWrite<C>>(
    v: T::Src,
    e: E::Src,
)
    ensures
        <Result<T, E> as SchemaWrite<C>>::emit(&Ok(v)).err
            == (if C::TagEncoding::tag_emit(0).err is Some {
            C::TagEncoding::tag_emit(0).err
        } else {
            T::emit(&v).err
        }),
        <Result<T, E> as SchemaWrite<C>>::emit(&Ok(v)).bytes
            == (if C::TagEncoding::tag_emit(0).err is Some {
            C::TagEncoding::tag_emit(0).bytes
        } else {
            C::TagEncoding::tag_emit(0).bytes + T::emit(&v).bytes
        }),
        <Result<T, E> as SchemaWrite<C>>::emit(&Ok(v)).weight
            == C::TagEncoding::tag_emit(0).weight + T::emit(&v).weight,
        <Result<T, E> as SchemaWrite<C>>::size_err(&Ok(v))
            == (if C::TagEncoding::tag_emit(0).err is Some {
            C::TagEncoding::tag_emit(0).err
        } else {
            T::size_err(&v)
        }),
        <Result<T, E> as SchemaWrite<C>>::src_val(&Ok(v)) == Ok::<T::Val, E::Val>(T::src_val(&v)),
        <Result<T, E> as SchemaWrite<C>>::emit(&Err(e)).err
            == (if C::TagEncoding::tag_emit(1).err is Some {
            C::TagEncoding::tag_emit(1).err
        } else {
            E::emit(&e).err
        }),
        <Result<T, E> as SchemaWrite<C>>::emit(&Err(e)).bytes
            == (if C::TagEncoding::tag_emit(1).err is Some {
            C::TagEncoding::tag_emit(1).bytes
        } else {
            C::TagEncoding::tag_emit(1).bytes + E::emit(&e).bytes
        }),
        <Result<T, E> as SchemaWrite<C>>::emit(&Err(e)).weight
            == C::TagEncoding::tag_emit(1).weight + E::emit(&e).weight,
        <Result<T, E> as SchemaWrite<C>>::size_err(&Err(e))
            == (if C::TagEncoding::tag_emit(1).err is Some {
            C::TagEncoding::tag_emit(1).err
        } else {
            E::size_err(&e)
        }),
        <Result<T, E> as SchemaWrite<C>>::src_val(&Err(e)) == Err::<T::Val, E::Val>(E::src_val(&e)),
        <Result<T, E> as SchemaWrite<C>>::write_lawful()
            == (T::write_lawful() && E::write_lawful()),
        <Result<T, E> as SchemaWrite<C>>::write_meta()
            == match (C::TagEncoding::tag_meta(), T::write_meta(), E::write_meta()) {
            (
                TypeMeta::Static { size: tag, .. },
                TypeMeta::Static { size: n, .. },
                TypeMeta::Static { size: m, .. },
            ) => if n == m && tag + n <= usize::MAX {
                TypeMeta::Static { size: (tag + n) as usize, zero_copy: false }
            } else {
                TypeMeta::Dynamic
            },
            _ => TypeMeta::Dynamic,
        },
{
}

/// A result is read by its tag, of which only `0` and `1` stand for anything.
pub proof fn law_result_reads<'de, C: Config, T: SchemaRead<'de, C>, E: SchemaRead<'de, C>>(
    v: T::Dst,
    e: E::Dst,
    inp: Input,
)
    ensures
        <Result<T, E> as SchemaRead<'de, C>>::dec(inp) == match C::TagEncoding::tag_dec(inp) {
            Ok((tag, mid)) => if tag == 0 {
                match T::dec(mid) {
                    Ok((x, rest)) => Ok::<(Result<T::Val, E::Val>, Input), Fault>((Ok(x), rest)),
                    Err(f) => Err(f),
                }
            } else if tag == 1 {
                match E::dec(mid) {
                    Ok((x, rest)) => Ok::<(Result<T::Val, E::Val>, Input), Fault>((Err(x), rest)),
                    Err(f) => Err(f),
                }
            } else {
                Err((Fault { err: ReadError::InvalidTagEncoding(tag as usize), left: mid }))
            },
            Err(f) => Err(f),
        },
        <Result<T, E> as SchemaRead<'de, C>>::dst_val(&Ok(v))
            == Ok::<T::Val, E::Val>(T::dst_val(&v)),
        <Result<T, E> as SchemaRead<'de, C>>::dst_val(&Err(e))
            == Err::<T::Val, E::Val>(E::dst_val(&e)),
        <Result<T, E> as SchemaRead<'de, C>>::read_lawful()
            == (T::read_lawful() && E::read_lawful()),
        <Result<T, E> as SchemaRead<'de, C>>::read_meta()
            == match (C::TagEncoding::tag_meta(), T::read_meta(), E::read_meta()) {
            (
                TypeMeta::Static { size: tag, .. },
                TypeMeta::Static { size: n, .. },
                TypeMeta::Static { size: m, .. },
            ) => if n == m && tag + n <= usize::MAX {
                TypeMeta::Static { size: (tag + n) as usize, zero_copy: false }
            } else {
                TypeMeta::Dynamic
            },
            _ => TypeMeta::Dynamic,
        },
{
}

/// A bound is the tag `0` if there is none, the tag `1` and then the value that is included, or the
/// tag `2` and then the value that is excluded.
pub proof fn law_bound_bytes<C: Config, T: SchemaWrite<C>>(v: T::Src)
    ensures
        <Bound<T> as SchemaWrite<C>>::emit(&Bound::Unbounded) == C::TagEncoding::tag_emit(0),
        <Bound<T> as SchemaWrite<C>>::size_err(&Bound::Unbounded)
            == C::TagEncoding::tag_emit(0).err,
        <Bound<T> as SchemaWrite<C>>::src_val(&Bound::Unbounded) is Unbounded,
        <Bound<T> as SchemaWrite<C>>::emit(&Bound::Included(v)).err
            == (if C::TagEncoding::tag_emit(1).err is Some {
            C::TagEncoding::tag_emit(1).err
        } else {
            T::emit(&v).err
        }),
        <Bound<T> as SchemaWrite<C>>::emit(&Bound::Included(v)).bytes
            == (if C::TagEncoding::tag_emit(1).err is Some {
            C::TagEncoding::tag_emit(1).bytes
        } else {
            C::TagEncoding::tag_emit(1).bytes + T::emit(&v).bytes
        }),
        <Bound<T> as SchemaWrite<C>>::emit(&Bound::Included(v)).weight
            == C::TagEncoding::tag_emit(1).weight + T::emit(&v).weight,
        <Bound<T> as SchemaWrite<C>>::size_err(&Bound::Included(v))
            == (if C::TagEncoding::tag_emit(1).err is Some {
            C::TagEncoding::tag_emit(1).err
        } else {
            T::size_err(&v)
        }),
        <Bound<T> as SchemaWrite<C>>::src_val(&Bound::Included(v))
            == Bound::Included(T::src_val(&v)),
        <Bound<T> as SchemaWrite<C>>::emit(&Bound::Excluded(v)).err
            == (if C::TagEncoding::tag_emit(2).err is Some {
            C::TagEncoding::tag_emit(2).err
        } else {
            T::emit(&v).err
        }),
        <Bound<T> as SchemaWrite<C>>::emit(&Bound::Excluded(v)).bytes
            == (if C::TagEncoding::tag_emit(2).err is Some {
            C::TagEncoding::tag_emit(2).bytes
        } else {
            C::TagEncoding::tag_emit(2).bytes + T::emit(&v).bytes
        }),
        <Bound<T> as SchemaWrite<C>>::emit(&Bound::Excluded(v)).weight
            == C::TagEncoding::tag_emit(2).weight + T::emit(&v).weight,
        <Bound<T> as SchemaWrite<C>>::size_err(&Bound::Excluded(v))
            == (if C::TagEncoding::tag_emit(2).err is Some {
            C::TagEncoding::tag_emit(2).err
        } else {
            T::size_err(&v)
        }),
        <Bound<T> as SchemaWrite<C>>::src_val(&Bound::Excluded(v))
            == Bound::Excluded(T::src_val(&v)),
        <Bound<T> as SchemaWrite<C>>::write_lawful() == T::write_lawful(),
        <Bound<T> as SchemaWrite<C>>::write_meta() is Dynamic,
{
}

/// A bound is read by its tag, of which only `0`, `1` and `2` stand for anything.
pub proof fn law_bound_reads<'de, C: Config, T: SchemaRead<'de, C>>(v: T::Dst, inp: Input)
    ensures
        <Bound<T> as SchemaRead<'de, C>>::dec(inp) == match C::TagEncoding::tag_dec(inp) {
            Ok((tag, mid)) => if tag == 0 {
                Ok::<(Bound<T::Val>, Input), Fault>((Bound::Unbounded, mid))
            } else if tag <= 2 {
                match T::dec(mid) {
                    Ok((x, rest)) => if tag == 1 {
                        Ok((Bound::Included(x), rest))
                    } else {
                        Ok((Bound::Excluded(x), rest))
                    },
                    Err(f) => Err(f),
                }
            } else {
                Err((Fault { err: ReadError::InvalidTagEncoding(tag as usize), left: mid }))
            },
            Err(f) => Err(f),
        },
        <Bound<T> as SchemaRead<'de, C>>::dst_val(&Bound::Unbounded) is Unbounded,
        <Bound<T> as SchemaRead<'de, C>>::dst_val(&Bound::Included(v))
            == Bound::Included(T::dst_val(&v)),
        <Bound<T> as SchemaRead<'de, C>>::dst_val(&Bound::Excluded(v))
            == Bound::Excluded(T::dst_val(&v)),
        <Bound<T> as SchemaRead<'de, C>>::read_lawful() == T::read_lawful(),
        <Bound<T> as SchemaRead<'de, C>>::read_meta() is Dynamic,
{
}

/// A pair is its first part and then its second.
pub proof fn law_pair_bytes<C: ConfigCore, A: SchemaWrite<C>, B: SchemaWrite<C>>(a: A::Src,
    b: B::Src)
    ensures
        <(A, B) as SchemaWrite<C>>::emit(&(a, b)).err == (if A::emit(&a).err is Some {
            A::emit(&a).err
        } else {
            B::emit(&b).err
        }),
        <(A, B) as SchemaWrite<C>>::emit(&(a, b)).bytes == (if A::emit(&a).err is Some {
            A::emit(&a).bytes
        } else {
            A::emit(&a).bytes + B::emit(&b).bytes
        }),
        <(A, B) as SchemaWrite<C>>::emit(&(a, b)).weight == A::emit(&a).weight + B::emit(&b).weight,
        <(A, B) as SchemaWrite<C>>::write_meta() is Dynamic
            ==> <(A, B) as SchemaWrite<C>>::size_err(&(a, b)) == (if A::size_err(
            &a,
        ) is Some {
            A::size_err(&a)
        } else {
            B::size_err(&b)
        }),
        <(A, B) as SchemaWrite<C>>::write_meta() is Static
            ==> <(A, B) as SchemaWrite<C>>::size_err(&(a, b)) is None,
        <(A, B) as SchemaWrite<C>>::src_val(&(a, b)) == (A::src_val(&a), B::src_val(&b)),
        <(A, B) as SchemaWrite<C>>::write_lawful() == (A::write_lawful() && B::write_lawful()),
        <(A, B) as SchemaWrite<C>>::write_meta() == match (A::write_meta(), B::write_meta()) {
            (TypeMeta::Static { size: n, .. }, TypeMeta::Static { size: m, .. }) => if n + m
                <= usize::MAX {
                TypeMeta::Static { size: (n + m) as usize, zero_copy: false }
            } else {
                TypeMeta::Dynamic
            },
            _ => TypeMeta::Dynamic,
        },
{
}

/// The parts are read in the order in which they are written, unless it is known that there are too
/// few bytes for both.
pub proof fn law_pair_reads<'de, C: ConfigCore, A: SchemaRead<'de, C>, B: SchemaRead<'de, C>>(
    a: A::Dst, b: B::Dst, inp: Input)
    ensures
        <(A, B) as SchemaRead<'de, C>>::dec(inp) == match (A::read_meta(), B::read_meta()) {
            (TypeMeta::Static { size: n, .. }, TypeMeta::Static { size: m, .. }) => if n + m
                <= usize::MAX && inp.bytes.len() < n + m {
                Err::<((A::Val, B::Val), Input), Fault>(
                    (Fault {
                        err: ReadError::Io(crate::io::ReadError::ReadSizeLimit((n + m) as usize)),
                        left: inp,
                    }),
                )
            } else {
                match A::dec(inp) {
                    Ok((x, mid)) => match B::dec(mid) {
                        Ok((y, rest)) => Ok(((x, y), rest)),
                        Err(f) => Err(f),
                    },
                    Err(f) => Err(f),
                }
            },
            _ => match A::dec(inp) {
                Ok((x, mid)) => match B::dec(mid) {
                    Ok((y, rest)) => Ok(((x, y), rest)),
                    Err(f) => Err(f),
                },
                Err(f) => Err(f),
            },
        },
        <(A, B) as SchemaRead<'de, C>>::dst_val(&(a, b)) == (A::dst_val(&a), B::dst_val(&b)),
        <(A, B) as SchemaRead<'de, C>>::read_lawful() == (A::read_lawful() && B::read_lawful()),
        <(A, B) as SchemaRead<'de, C>>::read_meta() == match (A::read_meta(), B::read_meta()) {
            (TypeMeta::Static { size: n, .. }, TypeMeta::Static { size: m, .. }) => if n + m
                <= usize::MAX {
                TypeMeta::Static { size: (n + m) as usize, zero_copy: false }
            } else {
                TypeMeta::Dynamic
            },
            _ => TypeMeta::Dynamic,
        },
{
}

/// A range is its start and then its end.
pub proof fn law_range_bytes<C: ConfigCore, T: SchemaWrite<C>>(r: Range<T::Src>)
    ensures
        <Range<T> as SchemaWrite<C>>::emit(&r).err == (if T::emit(&r.start).err is Some {
            T::emit(&r.start).err
        } else {
            T::emit(&r.end).err
        }),
        <Range<T> as SchemaWrite<C>>::emit(&r).bytes == (if T::emit(&r.start).err is Some {
            T::emit(&r.start).bytes
        } else {
            T::emit(&r.start).bytes + T::emit(&r.end).bytes
        }),
        <Range<T> as SchemaWrite<C>>::emit(&r).weight
            == T::emit(&r.start).weight + T::emit(&r.end).weight,
        <Range<T> as SchemaWrite<C>>::size_err(&r) == (if T::size_err(
            &r.start,
        ) is Some {
            T::size_err(&r.start)
        } else {
            T::size_err(&r.end)
        }),
        <Range<T> as SchemaWrite<C>>::src_val(&r) == (T::src_val(&r.start), T::src_val(&r.end)),
        <Range<T> as SchemaWrite<C>>::write_lawful() == T::write_lawful(),
        <Range<T> as SchemaWrite<C>>::write_meta() == match (T::write_meta(), T::write_meta()) {
            (TypeMeta::Static { size: n, .. }, TypeMeta::Static { size: m, .. }) => if n + m
                <= usize::MAX {
                TypeMeta::Static { size: (n + m) as usize, zero_copy: false }
            } else {
                TypeMeta::Dynamic
            },
            _ => TypeMeta::Dynamic,
        },
{
}

/// The parts are read in the order in which they are written, unless it is known that there are too
/// few bytes for both.
pub proof fn law_range_reads<'de, C: ConfigCore, T: SchemaRead<'de, C>>(r: Range<T::Dst>,
    inp: Input)
    ensures
        <Range<T> as SchemaRead<'de, C>>::dec(inp) == match (T::read_meta(), T::read_meta()) {
            (TypeMeta::Static { size: n, .. }, TypeMeta::Static { size: m, .. }) => if n + m
                <= usize::MAX && inp.bytes.len() < n + m {
                Err::<((T::Val, T::Val), Input), Fault>(
                    (Fault {
                        err: ReadError::Io(crate::io::ReadError::ReadSizeLimit((n + m) as usize)),
                        left: inp,
                    }),
                )
            } else {
                match T::dec(inp) {
                    Ok((x, mid)) => match T::dec(mid) {
                        Ok((y, rest)) => Ok(((x, y), rest)),
                        Err(f) => Err(f),
                    },
                    Err(f) => Err(f),
                }
            },
            _ => match T::dec(inp) {
                Ok((x, mid)) => match T::dec(mid) {
                    Ok((y, rest)) => Ok(((x, y), rest)),
                    Err(f) => Err(f),
                },
                Err(f) => Err(f),
            },
        },
        <Range<T> as SchemaRead<'de, C>>::dst_val(&r) == (T::dst_val(&r.start), T::dst_val(&r.end)),
        <Range<T> as SchemaRead<'de, C>>::read_lawful() == T::read_lawful(),
        <Range<T> as SchemaRead<'de, C>>::read_meta() == match (T::read_meta(), T::read_meta()) {
            (TypeMeta::Static { size: n, .. }, TypeMeta::Static { size: m, .. }) => if n + m
                <= usize::MAX {
                TypeMeta::Static { size: (n + m) as usize, zero_copy: false }
            } else {
                TypeMeta::Dynamic
            },
            _ => TypeMeta::Dynamic,
        },
{
}

/// A range with its end included is laid out as one without.
pub proof fn law_range_inclusive_bytes<C: ConfigCore, T: SchemaWrite<C>>(r: RangeInclusive<T::Src>)
    ensures
        <RangeInclusive<T> as SchemaWrite<C>>::emit(&r).err == (if T::emit(&r@.start).err is Some {
            T::emit(&r@.start).err
        } else {
            T::emit(&r@.end).err
        }),
        <RangeInclusive<T> as SchemaWrite<C>>::emit(&r).bytes
            == (if T::emit(&r@.start).err is Some {
            T::emit(&r@.start).bytes
        } else {
            T::emit(&r@.start).bytes + T::emit(&r@.end).bytes
        }),
        <RangeInclusive<T> as SchemaWrite<C>>::emit(&r).weight
            == T::emit(&r@.start).weight + T::emit(&r@.end).weight,
        <RangeInclusive<T> as SchemaWrite<C>>::write_meta() is Dynamic
            ==> <RangeInclusive<T> as SchemaWrite<C>>::size_err(&r) == (if T::size_err(
            &r@.start,
        ) is Some {
            T::size_err(&r@.start)
        } else {
            T::size_err(&r@.end)
        }),
        <RangeInclusive<T> as SchemaWrite<C>>::write_meta() is Static
            ==> <RangeInclusive<T> as SchemaWrite<C>>::size_err(&r) is None,
        <RangeInclusive<T> as SchemaWrite<C>>::src_val(&r)
            == (T::src_val(&r@.start), T::src_val(&r@.end)),
        <RangeInclusive<T> as SchemaWrite<C>>::write_lawful() == T::write_lawful(),
        <RangeInclusive<T> as SchemaWrite<C>>::write_meta()
            == match (T::write_meta(), T::write_meta()) {
            (TypeMeta::Static { size: n, .. }, TypeMeta::Static { size: m, .. }) => if n + m
                <= usize::MAX {
                TypeMeta::Static { size: (n + m) as usize, zero_copy: false }
            } else {
                TypeMeta::Dynamic
            },
            _ => TypeMeta::Dynamic,
        },
{
}

/// The parts are read in the order in which they are written, unless it is known that there are too
/// few bytes for both.
pub proof fn law_range_inclusive_reads<'de, C: ConfigCore, T: SchemaRead<'de, C>>(
    r: RangeInclusive<T::Dst>, inp: Input)
    ensures
        <RangeInclusive<T> as SchemaRead<'de, C>>::dec(inp)
            == match (T::read_meta(), T::read_meta()) {
            (TypeMeta::Static { size: n, .. }, TypeMeta::Static { size: m, .. }) => if n + m
                <= usize::MAX && inp.bytes.len() < n + m {
                Err::<((T::Val, T::Val), Input), Fault>(
                    (Fault {
                        err: ReadError::Io(crate::io::ReadError::ReadSizeLimit((n + m) as usize)),
                        left: inp,
                    }),
                )
            } else {
                match T::dec(inp) {
                    Ok((x, mid)) => match T::dec(mid) {
                        Ok((y, rest)) => Ok(((x, y), rest)),
                        Err(f) => Err(f),
                    },
                    Err(f) => Err(f),
                }
            },
            _ => match T::dec(inp) {
                Ok((x, mid)) => match T::dec(mid) {
                    Ok((y, rest)) => Ok(((x, y), rest)),
                    Err(f) => Err(f),
                },
                Err(f) => Err(f),
            },
        },
        <RangeInclusive<T> as SchemaRead<'de, C>>::dst_val(&r)
            == (T::dst_val(&r@.start), T::dst_val(&r@.end)),
        <RangeInclusive<T> as SchemaRead<'de, C>>::read_lawful() == T::read_lawful(),
        <RangeInclusive<T> as SchemaRead<'de, C>>::read_meta()
            == match (T::read_meta(), T::read_meta()) {
            (TypeMeta::Static { size: n, .. }, TypeMeta::Static { size: m, .. }) => if n + m
                <= usize::MAX {
                TypeMeta::Static { size: (n + m) as usize, zero_copy: false }
            } else {
                TypeMeta::Dynamic
            },
            _ => TypeMeta::Dynamic,
        },
{
}

/// A value is written alike by itself, as the only part of a tuple, behind a pointer and as the
/// contents of a cell, except that only by itself its memory may be copied.
pub proof fn law_wrapped_bytes<'a, C: ConfigCore, T: SchemaWrite<C>>(
    one: (T::Src,),
    boxed: Box<T::Src>,
    rc: Rc<T::Src>,
    arc: Arc<T::Src>,
    by_ref: &'a T::Src,
    cell: T::Src,
)
    ensures
        <(T,) as SchemaWrite<C>>::emit(&one) == T::emit(&one.0),
        <(T,) as SchemaWrite<C>>::size_err(&one) == T::size_err(&one.0),
        <(T,) as SchemaWrite<C>>::src_val(&one) == T::src_val(&one.0),
        <(T,) as SchemaWrite<C>>::write_lawful() == T::write_lawful(),
        <(T,) as SchemaWrite<C>>::write_meta() == match T::write_meta() {
            TypeMeta::Static { size, .. } => TypeMeta::Static { size, zero_copy: false },
            TypeMeta::Dynamic => TypeMeta::Dynamic,
        },
        <Box<T> as SchemaWrite<C>>::emit(&boxed) == T::emit(&*boxed),
        <Box<T> as SchemaWrite<C>>::size_err(&boxed) == T::size_err(&*boxed),
        <Box<T> as SchemaWrite<C>>::src_val(&boxed) == T::src_val(&*boxed),
        <Box<T> as SchemaWrite<C>>::write_lawful() == T::write_lawful(),
        <Box<T> as SchemaWrite<C>>::write_meta() == match T::write_meta() {
            TypeMeta::Static { size, .. } => TypeMeta::Static { size, zero_copy: false },
            TypeMeta::Dynamic => TypeMeta::Dynamic,
        },
        <Rc<T> as SchemaWrite<C>>::emit(&rc) == T::emit(&*rc),
        <Rc<T> as SchemaWrite<C>>::size_err(&rc) == T::size_err(&*rc),
        <Rc<T> as SchemaWrite<C>>::src_val(&rc) == T::src_val(&*rc),
        <Rc<T> as SchemaWrite<C>>::write_lawful() == T::write_lawful(),
        <Rc<T> as SchemaWrite<C>>::write_meta() == match T::write_meta() {
            TypeMeta::Static { size, .. } => TypeMeta::Static { size, zero_copy: false },
            TypeMeta::Dynamic => TypeMeta::Dynamic,
        },
        <Arc<T> as SchemaWrite<C>>::emit(&arc) == T::emit(&*arc),
        <Arc<T> as SchemaWrite<C>>::size_err(&arc) == T::size_err(&*arc),
        <Arc<T> as SchemaWrite<C>>::src_val(&arc) == T::src_val(&*arc),
        <Arc<T> as SchemaWrite<C>>::write_lawful() == T::write_lawful(),
        <Arc<T> as SchemaWrite<C>>::write_meta() == match T::write_meta() {
            TypeMeta::Static { size, .. } => TypeMeta::Static { size, zero_copy: false },
            TypeMeta::Dynamic => TypeMeta::Dynamic,
        },
        <&'a T as SchemaWrite<C>>::emit(&by_ref) == T::emit(by_ref),
        <&'a T as SchemaWrite<C>>::size_err(&by_ref) == T::size_err(by_ref),
        <&'a T as SchemaWrite<C>>::src_val(&by_ref) == T::src_val(by_ref),
        <&'a T as SchemaWrite<C>>::write_lawful() == T::write_lawful(),
        <&'a T as SchemaWrite<C>>::write_meta() == match T::write_meta() {
            TypeMeta::Static { size, .. } => TypeMeta::Static { size, zero_copy: false },
            TypeMeta::Dynamic => TypeMeta::Dynamic,
        },
        <CellContents<T> as SchemaWrite<C>>::emit(&cell) == T::emit(&cell),
        <CellContents<T> as SchemaWrite<C>>::size_err(&cell) == T::size_err(&cell),
        <CellContents<T> as SchemaWrite<C>>::src_val(&cell) == T::src_val(&cell),
        <CellContents<T> as SchemaWrite<C>>::write_lawful() == T::write_lawful(),
        <CellContents<T> as SchemaWrite<C>>::write_meta() == match T::write_meta() {
            TypeMeta::Static { size, .. } => TypeMeta::Static { size, zero_copy: false },
            TypeMeta::Dynamic => TypeMeta::Dynamic,
        },
{
}

/// A value is read alike by itself, as the only part of a tuple, behind a pointer and as the
/// contents of a cell.
pub proof fn law_wrapped_reads<'de, C: ConfigCore, T: SchemaRead<'de, C>>(
    one: (T::Dst,),
    boxed: Box<T::Dst>,
    rc: Rc<T::Dst>,
    arc: Arc<T::Dst>,
    cell: T::Dst,
    inp: Input,
)
    ensures
        <(T,) as SchemaRead<'de, C>>::dec(inp) == T::dec(inp),
        <(T,) as SchemaRead<'de, C>>::dst_val(&one) == T::dst_val(&one.0),
        <(T,) as SchemaRead<'de, C>>::read_lawful() == T::read_lawful(),
        <(T,) as SchemaRead<'de, C>>::read_meta() == match T::read_meta() {
            TypeMeta::Static { size, .. } => TypeMeta::Static { size, zero_copy: false },
            TypeMeta::Dynamic => TypeMeta::Dynamic,
        },
        <Box<T> as SchemaRead<'de, C>>::dec(inp) == T::dec(inp),
        <Box<T> as SchemaRead<'de, C>>::dst_val(&boxed) == T::dst_val(&*boxed),
        <Box<T> as SchemaRead<'de, C>>::read_lawful() == T::read_lawful(),
        <Box<T> as SchemaRead<'de, C>>::read_meta() == match T::read_meta() {
            TypeMeta::Static { size, .. } => TypeMeta::Static { size, zero_copy: false },
            TypeMeta::Dynamic => TypeMeta::Dynamic,
        },
        <Rc<T> as SchemaRead<'de, C>>::dec(inp) == T::dec(inp),
        <Rc<T> as SchemaRead<'de, C>>::dst_val(&rc) == T::dst_val(&*rc),
        <Rc<T> as SchemaRead<'de, C>>::read_lawful() == T::read_lawful(),
        <Rc<T> as SchemaRead<'de, C>>::read_meta() == match T::read_meta() {
            TypeMeta::Static { size, .. } => TypeMeta::Static { size, zero_copy: false },
            TypeMeta::Dynamic => TypeMeta::Dynamic,
        },
        <Arc<T> as SchemaRead<'de, C>>::dec(inp) == T::dec(inp),
        <Arc<T> as SchemaRead<'de, C>>::dst_val(&arc) == T::dst_val(&*arc),
        <Arc<T> as SchemaRead<'de, C>>::read_lawful() == T::read_lawful(),
        <Arc<T> as SchemaRead<'de, C>>::read_meta() == match T::read_meta() {
            TypeMeta::Static { size, .. } => TypeMeta::Static { size, zero_copy: false },
            TypeMeta::Dynamic => TypeMeta::Dynamic,
        },
        <CellContents<T> as SchemaRead<'de, C>>::dec(inp) == T::dec(inp),
        <CellContents<T> as SchemaRead<'de, C>>::dst_val(&cell) == T::dst_val(&cell),
        <CellContents<T> as SchemaRead<'de, C>>::read_lawful() == T::read_lawful(),
        <CellContents<T> as SchemaRead<'de, C>>::read_meta() == T::read_meta(),
{
}

/// A cell or lock is written as its contents, and where those cannot be had the error says why.
pub proof fn law_guarded_bytes<'a, C: ConfigCore, T: SchemaWrite<C>>(v: &'a T::Src)
    ensures
        <Guarded<'a, RefCellGuard, T> as SchemaWrite<C>>::emit(&Some(v)) == T::emit(v),
        <Guarded<'a, RefCellGuard, T> as SchemaWrite<C>>::size_err(&Some(v)) == T::size_err(v),
        <Guarded<'a, RefCellGuard, T> as SchemaWrite<C>>::src_val(&Some(v)) == Some(T::src_val(v)),
        <Guarded<'a, RefCellGuard, T> as SchemaWrite<C>>::emit(&None).err
            == Some(WriteError::Custom("RefCell already mutably borrowed")),
        <Guarded<'a, RefCellGuard, T> as SchemaWrite<C>>::emit(&None).bytes.len() == 0,
        <Guarded<'a, RefCellGuard, T> as SchemaWrite<C>>::size_err(&None)
            == Some(WriteError::Custom("RefCell already mutably borrowed")),
        <Guarded<'a, RefCellGuard, T> as SchemaWrite<C>>::src_val(&None) is None,
        <Guarded<'a, RefCellGuard, T> as SchemaWrite<C>>::write_lawful() == T::write_lawful(),
        <Guarded<'a, RefCellGuard, T> as SchemaWrite<C>>::write_meta() == match T::write_meta() {
            TypeMeta::Static { size, .. } => TypeMeta::Static { size, zero_copy: false },
            TypeMeta::Dynamic => TypeMeta::Dynamic,
        },
        <Guarded<'a, MutexGuard, T> as SchemaWrite<C>>::emit(&Some(v)) == T::emit(v),
        <Guarded<'a, MutexGuard, T> as SchemaWrite<C>>::size_err(&Some(v)) == T::size_err(v),
        <Guarded<'a, MutexGuard, T> as SchemaWrite<C>>::src_val(&Some(v)) == Some(T::src_val(v)),
        <Guarded<'a, MutexGuard, T> as SchemaWrite<C>>::emit(&None).err
            == Some(WriteError::Custom("Mutex poisoned")),
        <Guarded<'a, MutexGuard, T> as SchemaWrite<C>>::emit(&None).bytes.len() == 0,
        <Guarded<'a, MutexGuard, T> as SchemaWrite<C>>::size_err(&None)
            == Some(WriteError::Custom("Mutex poisoned")),
        <Guarded<'a, MutexGuard, T> as SchemaWrite<C>>::src_val(&None) is None,
        <Guarded<'a, MutexGuard, T> as SchemaWrite<C>>::write_lawful() == T::write_lawful(),
        <Guarded<'a, MutexGuard, T> as SchemaWrite<C>>::write_meta() == match T::write_meta() {
            TypeMeta::Static { size, .. } => TypeMeta::Static { size, zero_copy: false },
            TypeMeta::Dynamic => TypeMeta::Dynamic,
        },
        <Guarded<'a, RwLockGuard, T> as SchemaWrite<C>>::emit(&Some(v)) == T::emit(v),
        <Guarded<'a, RwLockGuard, T> as SchemaWrite<C>>::size_err(&Some(v)) == T::size_err(v),
        <Guarded<'a, RwLockGuard, T> as SchemaWrite<C>>::src_val(&Some(v)) == Some(T::src_val(v)),
        <Guarded<'a, RwLockGuard, T> as SchemaWrite<C>>::emit(&None).err
            == Some(WriteError::Custom("RwLock poisoned")),
        <Guarded<'a, RwLockGuard, T> as SchemaWrite<C>>::emit(&None).bytes.len() == 0,
        <Guarded<'a, RwLockGuard, T> as SchemaWrite<C>>::size_err(&None)
            == Some(WriteError::Custom("RwLock poisoned")),
        <Guarded<'a, RwLockGuard, T> as SchemaWrite<C>>::src_val(&None) is None,
        <Guarded<'a, RwLockGuard, T> as SchemaWrite<C>>::write_lawful() == T::write_lawful(),
        <Guarded<'a, RwLockGuard, T> as SchemaWrite<C>>::write_meta() == match T::write_meta() {
            TypeMeta::Static { size, .. } => TypeMeta::Static { size, zero_copy: false },
            TypeMeta::Dynamic => TypeMeta::Dynamic,
        },
{
}

/// A cell or lock is read as its contents.
pub proof fn law_guarded_reads<'a, 'de, C: ConfigCore, T: SchemaRead<'de, C>>(v: T::Dst, inp: Input)
    ensures
        <Guarded<'a, RefCellGuard, T> as SchemaRead<'de, C>>::dec(inp) == match T::dec(inp) {
            Ok((x, rest)) => Ok::<(Option<T::Val>, Input), Fault>((Some(x), rest)),
            Err(f) => Err(f),
        },
        <Guarded<'a, RefCellGuard, T> as SchemaRead<'de, C>>::dst_val(&v) == Some(T::dst_val(&v)),
        <Guarded<'a, RefCellGuard, T> as SchemaRead<'de, C>>::read_lawful() == T::read_lawful(),
        <Guarded<'a, RefCellGuard, T> as SchemaRead<'de, C>>::read_meta() == match T::read_meta() {
            TypeMeta::Static { size, .. } => TypeMeta::Static { size, zero_copy: false },
            TypeMeta::Dynamic => TypeMeta::Dynamic,
        },
        <Guarded<'a, MutexGuard, T> as SchemaRead<'de, C>>::dec(inp) == match T::dec(inp) {
            Ok((x, rest)) => Ok::<(Option<T::Val>, Input), Fault>((Some(x), rest)),
            Err(f) => Err(f),
        },
        <Guarded<'a, MutexGuard, T> as SchemaRead<'de, C>>::dst_val(&v) == Some(T::dst_val(&v)),
        <Guarded<'a, MutexGuard, T> as SchemaRead<'de, C>>::read_lawful() == T::read_lawful(),
        <Guarded<'a, MutexGuard, T> as SchemaRead<'de, C>>::read_meta() == match T::read_meta() {
            TypeMeta::Static { size, .. } => TypeMeta::Static { size, zero_copy: false },
            TypeMeta::Dynamic => TypeMeta::Dynamic,
        },
        <Guarded<'a, RwLockGuard, T> as SchemaRead<'de, C>>::dec(inp) == match T::dec(inp) {
            Ok((x, rest)) => Ok::<(Option<T::Val>, Input), Fault>((Some(x), rest)),
            Err(f) => Err(f),
        },
        <Guarded<'a, RwLockGuard, T> as SchemaRead<'de, C>>::dst_val(&v) == Some(T::dst_val(&v)),
        <Guarded<'a, RwLockGuard, T> as SchemaRead<'de, C>>::read_lawful() == T::read_lawful(),
        <Guarded<'a, RwLockGuard, T> as SchemaRead<'de, C>>::read_meta() == match T::read_meta() {
            TypeMeta::Static { size, .. } => TypeMeta::Static { size, zero_copy: false },
            TypeMeta::Dynamic => TypeMeta::Dynamic,
        },
{
}

/// A `u8` that is not zero is laid out as any other, and a zero is not read as one.
pub proof fn law_nonzero_u8_is_no_zero<'de, C: ConfigCore>(v: NonZero<u8>, inp: Input)
    ensures
        <NonZero<u8> as SchemaWrite<C>>::emit(&v) == <u8 as SchemaWrite<C>>::emit(&v.value()),
        <NonZero<u8> as SchemaWrite<C>>::size_err(&v) is None,
        <NonZero<u8> as SchemaWrite<C>>::src_val(&v) == v.value(),
        <NonZero<u8> as SchemaRead<'de, C>>::dst_val(&v) == v.value(),
        <NonZero<u8> as SchemaRead<'de, C>>::dec(inp)
            == match <u8 as SchemaRead<'de, C>>::dec(inp) {
            Ok((x, rest)) => if x == 0 {
                Err::<(u8, Input), Fault>(
                    (Fault {
                        err: ReadError::InvalidValue(
                            "NonZero value cannot be zero for type NonZeroU8",
                        ),
                        left: rest,
                    }),
                )
            } else {
                Ok((x, rest))
            },
            Err(f) => Err(f),
        },
        v.value().zero() == (v.value() == 0),
        <NonZero<u8> as SchemaWrite<C>>::write_lawful(),
        <NonZero<u8> as SchemaRead<'de, C>>::read_lawful(),
        <NonZero<u8> as RoundTrip<'de, C>>::round_trips(),
        <NonZero<u8> as RoundTrip<'de, C>>::src_valid(&v) == (v.value() != 0),
        !<NonZero<u8> as RoundTrip<'de, C>>::needs_backing(),
        <NonZero<u8> as SchemaWrite<C>>::write_meta() == <u8 as SchemaWrite<C>>::write_meta(),
        <NonZero<u8> as SchemaRead<'de, C>>::read_meta()
            == match <u8 as SchemaRead<'de, C>>::read_meta() {
            TypeMeta::Static { size, .. } => TypeMeta::Static { size, zero_copy: false },
            TypeMeta::Dynamic => TypeMeta::Dynamic,
        },
{
}

/// A `u16` that is not zero is laid out as any other, and a zero is not read as one.
pub proof fn law_nonzero_u16_is_no_zero<'de, C: ConfigCore>(v: NonZero<u16>, inp: Input)
    ensures
        <NonZero<u16> as SchemaWrite<C>>::emit(&v) == <u16 as SchemaWrite<C>>::emit(&v.value()),
        <NonZero<u16> as SchemaWrite<C>>::size_err(&v) is None,
        <NonZero<u16> as SchemaWrite<C>>::src_val(&v) == v.value(),
        <NonZero<u16> as SchemaRead<'de, C>>::dst_val(&v) == v.value(),
        <NonZero<u16> as SchemaRead<'de, C>>::dec(inp)
            == match <u16 as SchemaRead<'de, C>>::dec(inp) {
            Ok((x, rest)) => if x == 0 {
                Err::<(u16, Input), Fault>(
                    (Fault {
                        err: ReadError::InvalidValue(
                            "NonZero value cannot be zero for type NonZeroU16",
                        ),
                        left: rest,
                    }),
                )
            } else {
                Ok((x, rest))
            },
            Err(f) => Err(f),
        },
        v.value().zero() == (v.value() == 0),
        <NonZero<u16> as SchemaWrite<C>>::write_lawful(),
        <NonZero<u16> as SchemaRead<'de, C>>::read_lawful(),
        <NonZero<u16> as RoundTrip<'de, C>>::round_trips(),
        <NonZero<u16> as RoundTrip<'de, C>>::src_valid(&v) == (v.value() != 0),
        !<NonZero<u16> as RoundTrip<'de, C>>::needs_backing(),
        <NonZero<u16> as SchemaWrite<C>>::write_meta() == <u16 as SchemaWrite<C>>::write_meta(),
        <NonZero<u16> as SchemaRead<'de, C>>::read_meta()
            == match <u16 as SchemaRead<'de, C>>::read_meta() {
            TypeMeta::Static { size, .. } => TypeMeta::Static { size, zero_copy: false },
            TypeMeta::Dynamic => TypeMeta::Dynamic,
        },
{
}

/// A `u32` that is not zero is laid out as any other, and a zero is not read as one.
pub proof fn law_nonzero_u32_is_no_zero<'de, C: ConfigCore>(v: NonZero<u32>, inp: Input)
    ensures
        <NonZero<u32> as SchemaWrite<C>>::emit(&v) == <u32 as SchemaWrite<C>>::emit(&v.value()),
        <NonZero<u32> as SchemaWrite<C>>::size_err(&v) is None,
        <NonZero<u32> as SchemaWrite<C>>::src_val(&v) == v.value(),
        <NonZero<u32> as SchemaRead<'de, C>>::dst_val(&v) == v.value(),
        <NonZero<u32> as SchemaRead<'de, C>>::dec(inp)
            == match <u32 as SchemaRead<'de, C>>::dec(inp) {
            Ok((x, rest)) => if x == 0 {
                Err::<(u32, Input), Fault>(
                    (Fault {
                        err: ReadError::InvalidValue(
                            "NonZero value cannot be zero for type NonZeroU32",
                        ),
                        left: rest,
                    }),
                )
            } else {
                Ok((x, rest))
            },
            Err(f) => Err(f),
        },
        v.value().zero() == (v.value() == 0),
        <NonZero<u32> as SchemaWrite<C>>::write_lawful(),
        <NonZero<u32> as SchemaRead<'de, C>>::read_lawful(),
        <NonZero<u32> as RoundTrip<'de, C>>::round_trips(),
        <NonZero<u32> as RoundTrip<'de, C>>::src_valid(&v) == (v.value() != 0),
        !<NonZero<u32> as RoundTrip<'de, C>>::needs_backing(),
        <NonZero<u32> as SchemaWrite<C>>::write_meta() == <u32 as SchemaWrite<C>>::write_meta(),
        <NonZero<u32> as SchemaRead<'de, C>>::read_meta()
            == match <u32 as SchemaRead<'de, C>>::read_meta() {
            TypeMeta::Static { size, .. } => TypeMeta::Static { size, zero_copy: false },
            TypeMeta::Dynamic => TypeMeta::Dynamic,
        },
{
}

/// A `u64` that is not zero is laid out as any other, and a zero is not read as one.
pub proof fn law_nonzero_u64_is_no_zero<'de, C: ConfigCore>(v: NonZero<u64>, inp: Input)
    ensures
        <NonZero<u64> as SchemaWrite<C>>::emit(&v) == <u64 as SchemaWrite<C>>::emit(&v.value()),
        <NonZero<u64> as SchemaWrite<C>>::size_err(&v) is None,
        <NonZero<u64> as SchemaWrite<C>>::src_val(&v) == v.value(),
        <NonZero<u64> as SchemaRead<'de, C>>::dst_val(&v) == v.value(),
        <NonZero<u64> as SchemaRead<'de, C>>::dec(inp)
            == match <u64 as SchemaRead<'de, C>>::dec(inp) {
            Ok((x, rest)) => if x == 0 {
                Err::<(u64, Input), Fault>(
                    (Fault {
                        err: ReadError::InvalidValue(
                            "NonZero value cannot be zero for type NonZeroU64",
                        ),
                        left: rest,
                    }),
                )
            } else {
                Ok((x, rest))
            },
            Err(f) => Err(f),
        },
        v.value().zero() == (v.value() == 0),
        <NonZero<u64> as SchemaWrite<C>>::write_lawful(),
        <NonZero<u64> as SchemaRead<'de, C>>::read_lawful(),
        <NonZero<u64> as RoundTrip<'de, C>>::round_trips(),
        <NonZero<u64> as RoundTrip<'de, C>>::src_valid(&v) == (v.value() != 0),
        !<NonZero<u64> as RoundTrip<'de, C>>::needs_backing(),
        <NonZero<u64> as SchemaWrite<C>>::write_meta() == <u64 as SchemaWrite<C>>::write_meta(),
        <NonZero<u64> as SchemaRead<'de, C>>::read_meta()
            == match <u64 as SchemaRead<'de, C>>::read_meta() {
            TypeMeta::Static { size, .. } => TypeMeta::Static { size, zero_copy: false },
            TypeMeta::Dynamic => TypeMeta::Dynamic,
        },
{
}

/// A `u128` that is not zero is laid out as any other, and a zero is not read as one.
pub proof fn law_nonzero_u128_is_no_zero<'de, C: ConfigCore>(v: NonZero<u128>, inp: Input)
    ensures
        <NonZero<u128> as SchemaWrite<C>>::emit(&v) == <u128 as SchemaWrite<C>>::emit(&v.value()),
        <NonZero<u128> as SchemaWrite<C>>::size_err(&v) is None,
        <NonZero<u128> as SchemaWrite<C>>::src_val(&v) == v.value(),
        <NonZero<u128> as SchemaRead<'de, C>>::dst_val(&v) == v.value(),
        <NonZero<u128> as SchemaRead<'de, C>>::dec(inp)
            == match <u128 as SchemaRead<'de, C>>::dec(inp) {
            Ok((x, rest)) => if x == 0 {
                Err::<(u128, Input), Fault>(
                    (Fault {
                        err: ReadError::InvalidValue(
                            "NonZero value cannot be zero for type NonZeroU128",
                        ),
                        left: rest,
                    }),
                )
            } else {
                Ok((x, rest))
            },
            Err(f) => Err(f),
        },
        v.value().zero() == (v.value() == 0),
        <NonZero<u128> as SchemaWrite<C>>::write_lawful(),
        <NonZero<u128> as SchemaRead<'de, C>>::read_lawful(),
        <NonZero<u128> as RoundTrip<'de, C>>::round_trips(),
        <NonZero<u128> as RoundTrip<'de, C>>::src_valid(&v) == (v.value() != 0),
        !<NonZero<u128> as RoundTrip<'de, C>>::needs_backing(),
        <NonZero<u128> as SchemaWrite<C>>::write_meta() == <u128 as SchemaWrite<C>>::write_meta(),
        <NonZero<u128> as SchemaRead<'de, C>>::read_meta()
            == match <u128 as SchemaRead<'de, C>>::read_meta() {
            TypeMeta::Static { size, .. } => TypeMeta::Static { size, zero_copy: false },
            TypeMeta::Dynamic => TypeMeta::Dynamic,
        },
{
}

/// A `usize` that is not zero is laid out as any other, and a zero is not read as one.
pub proof fn law_nonzero_usize_is_no_zero<'de, C: ConfigCore>(v: NonZero<usize>, inp: Input)
    ensures
        <NonZero<usize> as SchemaWrite<C>>::emit(&v) == <usize as SchemaWrite<C>>::emit(&v.value()),
        <NonZero<usize> as SchemaWrite<C>>::size_err(&v) is None,
        <NonZero<usize> as SchemaWrite<C>>::src_val(&v) == v.value(),
        <NonZero<usize> as SchemaRead<'de, C>>::dst_val(&v) == v.value(),
        <NonZero<usize> as SchemaRead<'de, C>>::dec(inp)
            == match <usize as SchemaRead<'de, C>>::dec(inp) {
            Ok((x, rest)) => if x == 0 {
                Err::<(usize, Input), Fault>(
                    (Fault {
                        err: ReadError::InvalidValue(
                            "NonZero value cannot be zero for type NonZeroUsize",
                        ),
                        left: rest,
                    }),
                )
            } else {
                Ok((x, rest))
            },
            Err(f) => Err(f),
        },
        v.value().zero() == (v.value() == 0),
        <NonZero<usize> as SchemaWrite<C>>::write_lawful(),
        <NonZero<usize> as SchemaRead<'de, C>>::read_lawful(),
        <NonZero<usize> as RoundTrip<'de, C>>::round_trips(),
        <NonZero<usize> as RoundTrip<'de, C>>::src_valid(&v) == (v.value() != 0),
        !<NonZero<usize> as RoundTrip<'de, C>>::needs_backing(),
        <NonZero<usize> as SchemaWrite<C>>::write_meta() == <usize as SchemaWrite<C>>::write_meta(),
        <NonZero<usize> as SchemaRead<'de, C>>::read_meta()
            == match <usize as SchemaRead<'de, C>>::read_meta() {
            TypeMeta::Static { size, .. } => TypeMeta::Static { size, zero_copy: false },
            TypeMeta::Dynamic => TypeMeta::Dynamic,
        },
{
}

/// A `i8` that is not zero is laid out as any other, and a zero is not read as one.
pub proof fn law_nonzero_i8_is_no_zero<'de, C: ConfigCore>(v: NonZero<i8>, inp: Input)
    ensures
        <NonZero<i8> as SchemaWrite<C>>::emit(&v) == <i8 as SchemaWrite<C>>::emit(&v.value()),
        <NonZero<i8> as SchemaWrite<C>>::size_err(&v) is None,
        <NonZero<i8> as SchemaWrite<C>>::src_val(&v) == v.value(),
        <NonZero<i8> as SchemaRead<'de, C>>::dst_val(&v) == v.value(),
        <NonZero<i8> as SchemaRead<'de, C>>::dec(inp)
            == match <i8 as SchemaRead<'de, C>>::dec(inp) {
            Ok((x, rest)) => if x == 0 {
                Err::<(i8, Input), Fault>(
                    (Fault {
                        err: ReadError::InvalidValue(
                            "NonZero value cannot be zero for type NonZeroI8",
                        ),
                        left: rest,
                    }),
                )
            } else {
                Ok((x, rest))
            },
            Err(f) => Err(f),
        },
        v.value().zero() == (v.value() == 0),
        <NonZero<i8> as SchemaWrite<C>>::write_lawful(),
        <NonZero<i8> as SchemaRead<'de, C>>::read_lawful(),
        <NonZero<i8> as RoundTrip<'de, C>>::round_trips(),
        <NonZero<i8> as RoundTrip<'de, C>>::src_valid(&v) == (v.value() != 0),
        !<NonZero<i8> as RoundTrip<'de, C>>::needs_backing(),
        <NonZero<i8> as SchemaWrite<C>>::write_meta() == <i8 as SchemaWrite<C>>::write_meta(),
        <NonZero<i8> as SchemaRead<'de, C>>::read_meta()
            == match <i8 as SchemaRead<'de, C>>::read_meta() {
            TypeMeta::Static { size, .. } => TypeMeta::Static { size, zero_copy: false },
            TypeMeta::Dynamic => TypeMeta::Dynamic,
        },
{
}

/// A `i16` that is not zero is laid out as any other, and a zero is not read as one.
pub proof fn law_nonzero_i16_is_no_zero<'de, C: ConfigCore>(v: NonZero<i16>, inp: Input)
    ensures
        <NonZero<i16> as SchemaWrite<C>>::emit(&v) == <i16 as SchemaWrite<C>>::emit(&v.value()),
        <NonZero<i16> as SchemaWrite<C>>::size_err(&v) is None,
        <NonZero<i16> as SchemaWrite<C>>::src_val(&v) == v.value(),
        <NonZero<i16> as SchemaRead<'de, C>>::dst_val(&v) == v.value(),
        <NonZero<i16> as SchemaRead<'de, C>>::dec(inp)
            == match <i16 as SchemaRead<'de, C>>::dec(inp) {
            Ok((x, rest)) => if x == 0 {
                Err::<(i16, Input), Fault>(
                    (Fault {
                        err: ReadError::InvalidValue(
                            "NonZero value cannot be zero for type NonZeroI16",
                        ),
                        left: rest,
                    }),
                )
            } else {
                Ok((x, rest))
            },
            Err(f) => Err(f),
        },
        v.value().zero() == (v.value() == 0),
        <NonZero<i16> as SchemaWrite<C>>::write_lawful(),
        <NonZero<i16> as SchemaRead<'de, C>>::read_lawful(),
        <NonZero<i16> as RoundTrip<'de, C>>::round_trips(),
        <NonZero<i16> as RoundTrip<'de, C>>::src_valid(&v) == (v.value() != 0),
        !<NonZero<i16> as RoundTrip<'de, C>>::needs_backing(),
        <NonZero<i16> as SchemaWrite<C>>::write_meta() == <i16 as SchemaWrite<C>>::write_meta(),
        <NonZero<i16> as SchemaRead<'de, C>>::read_meta()
            == match <i16 as SchemaRead<'de, C>>::read_meta() {
            TypeMeta::Static { size, .. } => TypeMeta::Static { size, zero_copy: false },
            TypeMeta::Dynamic => TypeMeta::Dynamic,
        },
{
}

/// A `i32` that is not zero is laid out as any other, and a zero is not read as one.
pub proof fn law_nonzero_i32_is_no_zero<'de, C: ConfigCore>(v: NonZero<i32>, inp: Input)
    ensures
        <NonZero<i32> as SchemaWrite<C>>::emit(&v) == <i32 as SchemaWrite<C>>::emit(&v.value()),
        <NonZero<i32> as SchemaWrite<C>>::size_err(&v) is None,
        <NonZero<i32> as SchemaWrite<C>>::src_val(&v) == v.value(),
        <NonZero<i32> as SchemaRead<'de, C>>::dst_val(&v) == v.value(),
        <NonZero<i32> as SchemaRead<'de, C>>::dec(inp)
            == match <i32 as SchemaRead<'de, C>>::dec(inp) {
            Ok((x, rest)) => if x == 0 {
                Err::<(i32, Input), Fault>(
                    (Fault {
                        err: ReadError::InvalidValue(
                            "NonZero value cannot be zero for type NonZeroI32",
                        ),
                        left: rest,
                    }),
                )
            } else {
                Ok((x, rest))
            },
            Err(f) => Err(f),
        },
        v.value().zero() == (v.value() == 0),
        <NonZero<i32> as SchemaWrite<C>>::write_lawful(),
        <NonZero<i32> as SchemaRead<'de, C>>::read_lawful(),
        <NonZero<i32> as RoundTrip<'de, C>>::round_trips(),
        <NonZero<i32> as RoundTrip<'de, C>>::src_valid(&v) == (v.value() != 0),
        !<NonZero<i32> as RoundTrip<'de, C>>::needs_backing(),
        <NonZero<i32> as SchemaWrite<C>>::write_meta() == <i32 as SchemaWrite<C>>::write_meta(),
        <NonZero<i32> as SchemaRead<'de, C>>::read_meta()
            == match <i32 as SchemaRead<'de, C>>::read_meta() {
            TypeMeta::Static { size, .. } => TypeMeta::Static { size, zero_copy: false },
            TypeMeta::Dynamic => TypeMeta::Dynamic,
        },
{
}

/// A `i64` that is not zero is laid out as any other, and a zero is not read as one.
pub proof fn law_nonzero_i64_is_no_zero<'de, C: ConfigCore>(v: NonZero<i64>, inp: Input)
    ensures
        <NonZero<i64> as SchemaWrite<C>>::emit(&v) == <i64 as SchemaWrite<C>>::emit(&v.value()),
        <NonZero<i64> as SchemaWrite<C>>::size_err(&v) is None,
        <NonZero<i64> as SchemaWrite<C>>::src_val(&v) == v.value(),
        <NonZero<i64> as SchemaRead<'de, C>>::dst_val(&v) == v.value(),
        <NonZero<i64> as SchemaRead<'de, C>>::dec(inp)
            == match <i64 as SchemaRead<'de, C>>::dec(inp) {
            Ok((x, rest)) => if x == 0 {
                Err::<(i64, Input), Fault>(
                    (Fault {
                        err: ReadError::InvalidValue(
                            "NonZero value cannot be zero for type NonZeroI64",
                        ),
                        left: rest,
                    }),
                )
            } else {
                Ok((x, rest))
            },
            Err(f) => Err(f),
        },
        v.value().zero() == (v.value() == 0),
        <NonZero<i64> as SchemaWrite<C>>::write_lawful(),
        <NonZero<i64> as SchemaRead<'de, C>>::read_lawful(),
        <NonZero<i64> as RoundTrip<'de, C>>::round_trips(),
        <NonZero<i64> as RoundTrip<'de, C>>::src_valid(&v) == (v.value() != 0),
        !<NonZero<i64> as RoundTrip<'de, C>>::needs_backing(),
        <NonZero<i64> as SchemaWrite<C>>::write_meta() == <i64 as SchemaWrite<C>>::write_meta(),
        <NonZero<i64> as SchemaRead<'de, C>>::read_meta()
            == match <i64 as SchemaRead<'de, C>>::read_meta() {
            TypeMeta::Static { size, .. } => TypeMeta::Static { size, zero_copy: false },
            TypeMeta::Dynamic => TypeMeta::Dynamic,
        },
{
}

/// A `i128` that is not zero is laid out as any other, and a zero is not read as one.
pub proof fn law_nonzero_i128_is_no_zero<'de, C: ConfigCore>(v: NonZero<i128>, inp: Input)
    ensures
        <NonZero<i128> as SchemaWrite<C>>::emit(&v) == <i128 as SchemaWrite<C>>::emit(&v.value()),
        <NonZero<i128> as SchemaWrite<C>>::size_err(&v) is None,
        <NonZero<i128> as SchemaWrite<C>>::src_val(&v) == v.value(),
        <NonZero<i128> as SchemaRead<'de, C>>::dst_val(&v) == v.value(),
        <NonZero<i128> as SchemaRead<'de, C>>::dec(inp)
            == match <i128 as SchemaRead<'de, C>>::dec(inp) {
            Ok((x, rest)) => if x == 0 {
                Err::<(i128, Input), Fault>(
                    (Fault {
                        err: ReadError::InvalidValue(
                            "NonZero value cannot be zero for type NonZeroI128",
                        ),
                        left: rest,
                    }),
                )
            } else {
                Ok((x, rest))
            },
            Err(f) => Err(f),
        },
        v.value().zero() == (v.value() == 0),
        <NonZero<i128> as SchemaWrite<C>>::write_lawful(),
        <NonZero<i128> as SchemaRead<'de, C>>::read_lawful(),
        <NonZero<i128> as RoundTrip<'de, C>>::round_trips(),
        <NonZero<i128> as RoundTrip<'de, C>>::src_valid(&v) == (v.value() != 0),
        !<NonZero<i128> as RoundTrip<'de, C>>::needs_backing(),
        <NonZero<i128> as SchemaWrite<C>>::write_meta() == <i128 as SchemaWrite<C>>::write_meta(),
        <NonZero<i128> as SchemaRead<'de, C>>::read_meta()
            == match <i128 as SchemaRead<'de, C>>::read_meta() {
            TypeMeta::Static { size, .. } => TypeMeta::Static { size, zero_copy: false },
            TypeMeta::Dynamic => TypeMeta::Dynamic,
        },
{
}

/// A `isize` that is not zero is laid out as any other, and a zero is not read as one.
pub proof fn law_nonzero_isize_is_no_zero<'de, C: ConfigCore>(v: NonZero<isize>, inp: Input)
    ensures
        <NonZero<isize> as SchemaWrite<C>>::emit(&v) == <isize as SchemaWrite<C>>::emit(&v.value()),
        <NonZero<isize> as SchemaWrite<C>>::size_err(&v) is None,
        <NonZero<isize> as SchemaWrite<C>>::src_val(&v) == v.value(),
        <NonZero<isize> as SchemaRead<'de, C>>::dst_val(&v) == v.value(),
        <NonZero<isize> as SchemaRead<'de, C>>::dec(inp)
            == match <isize as SchemaRead<'de, C>>::dec(inp) {
            Ok((x, rest)) => if x == 0 {
                Err::<(isize, Input), Fault>(
                    (Fault {
                        err: ReadError::InvalidValue(
                            "NonZero value cannot be zero for type NonZeroIsize",
                        ),
                        left: rest,
                    }),
                )
            } else {
                Ok((x, rest))
            },
            Err(f) => Err(f),
        },
        v.value().zero() == (v.value() == 0),
        <NonZero<isize> as SchemaWrite<C>>::write_lawful(),
        <NonZero<isize> as SchemaRead<'de, C>>::read_lawful(),
        <NonZero<isize> as RoundTrip<'de, C>>::round_trips(),
        <NonZero<isize> as RoundTrip<'de, C>>::src_valid(&v) == (v.value() != 0),
        !<NonZero<isize> as RoundTrip<'de, C>>::needs_backing(),
        <NonZero<isize> as SchemaWrite<C>>::write_meta() == <isize as SchemaWrite<C>>::write_meta(),
        <NonZero<isize> as SchemaRead<'de, C>>::read_meta()
            == match <isize as SchemaRead<'de, C>>::read_meta() {
            TypeMeta::Static { size, .. } => TypeMeta::Static { size, zero_copy: false },
            TypeMeta::Dynamic => TypeMeta::Dynamic,
        },
{
}

/// Values made of others come back from reading if those do.
pub proof fn law_made_of_others_come_back<
    'a,
    'de,
    C: ConfigCore,
    A: RoundTrip<'de, C>,
    B: RoundTrip<'de, C>,
>(
    a: A::Src,
    b: B::Src,
    range: Range<A::Src>,
    closed: RangeInclusive<A::Src>,
    boxed: Box<A::Src>,
    rc: Rc<A::Src>,
    arc: Arc<A::Src>,
    by_ref: &'a A::Src,
)
    ensures
        <Option<A> as RoundTrip<'de, C>>::round_trips() == (A::round_trips()),
        <Option<A> as RoundTrip<'de, C>>::src_valid(&None),
        <Option<A> as RoundTrip<'de, C>>::src_valid(&Some(a)) == (A::src_valid(&a)),
        <Option<A> as RoundTrip<'de, C>>::needs_backing() == (A::needs_backing()),
        <(A, B) as RoundTrip<'de, C>>::round_trips() == (A::round_trips() && B::round_trips()),
        <(A, B) as RoundTrip<'de, C>>::src_valid(&(a, b)) == (A::src_valid(&a) && B::src_valid(&b)),
        <(A, B) as RoundTrip<'de, C>>::needs_backing()
            == (A::needs_backing() || B::needs_backing()),
        <Range<A> as RoundTrip<'de, C>>::round_trips() == (A::round_trips()),
        <Range<A> as RoundTrip<'de, C>>::src_valid(&range)
            == (A::src_valid(&range.start) && A::src_valid(&range.end)),
        <Range<A> as RoundTrip<'de, C>>::needs_backing() == (A::needs_backing()),
        <RangeInclusive<A> as RoundTrip<'de, C>>::round_trips() == (A::round_trips()),
        <RangeInclusive<A> as RoundTrip<'de, C>>::src_valid(&closed)
            == (A::src_valid(&closed@.start) && A::src_valid(&closed@.end)),
        <RangeInclusive<A> as RoundTrip<'de, C>>::needs_backing() == (A::needs_backing()),
        <(A,) as RoundTrip<'de, C>>::round_trips() == (A::round_trips()),
        <(A,) as RoundTrip<'de, C>>::src_valid(&(a,)) == (A::src_valid(&a)),
        <(A,) as RoundTrip<'de, C>>::needs_backing() == (A::needs_backing()),
        <Box<A> as RoundTrip<'de, C>>::round_trips() == (A::round_trips()),
        <Box<A> as RoundTrip<'de, C>>::src_valid(&boxed) == (A::src_valid(&*boxed)),
        <Box<A> as RoundTrip<'de, C>>::needs_backing() == (A::needs_backing()),
        <Rc<A> as RoundTrip<'de, C>>::round_trips() == (A::round_trips()),
        <Rc<A> as RoundTrip<'de, C>>::src_valid(&rc) == (A::src_valid(&*rc)),
        <Rc<A> as RoundTrip<'de, C>>::needs_backing() == (A::needs_backing()),
        <Arc<A> as RoundTrip<'de, C>>::round_trips() == (A::round_trips()),
        <Arc<A> as RoundTrip<'de, C>>::src_valid(&arc) == (A::src_valid(&*arc)),
        <Arc<A> as RoundTrip<'de, C>>::needs_backing() == (A::needs_backing()),
        <CellContents<A> as RoundTrip<'de, C>>::round_trips() == (A::round_trips()),
        <CellContents<A> as RoundTrip<'de, C>>::src_valid(&a) == (A::src_valid(&a)),
        <CellContents<A> as RoundTrip<'de, C>>::needs_backing() == (A::needs_backing()),
        <Guarded<'a, RefCellGuard, A> as RoundTrip<'de, C>>::round_trips() == (A::round_trips()),
        <Guarded<'a, RefCellGuard, A> as RoundTrip<'de, C>>::src_valid(&Some(by_ref))
            == (A::src_valid(by_ref)),
        <Guarded<'a, RefCellGuard, A> as RoundTrip<'de, C>>::needs_backing()
            == (A::needs_backing()),
        <Guarded<'a, MutexGuard, A> as RoundTrip<'de, C>>::round_trips() == (A::round_trips()),
        <Guarded<'a, MutexGuard, A> as RoundTrip<'de, C>>::src_valid(&Some(by_ref))
            == (A::src_valid(by_ref)),
        <Guarded<'a, MutexGuard, A> as RoundTrip<'de, C>>::needs_backing() == (A::needs_backing()),
        <Guarded<'a, RwLockGuard, A> as RoundTrip<'de, C>>::round_trips() == (A::round_trips()),
        <Guarded<'a, RwLockGuard, A> as RoundTrip<'de, C>>::src_valid(&Some(by_ref))
            == (A::src_valid(by_ref)),
        <Guarded<'a, RwLockGuard, A> as RoundTrip<'de, C>>::needs_backing() == (A::needs_backing()),
{
}

/// As [`law_made_of_others_come_back`], for those with a tag in front.
pub proof fn law_tagged_come_back<
    'de,
    C: Config,
    A: RoundTrip<'de, C>,
    B: RoundTrip<'de, C>,
>(a: A::Src, b: B::Src)
    ensures
        <Result<A, B> as RoundTrip<'de, C>>::round_trips()
            == (A::round_trips() && B::round_trips()),
        <Result<A, B> as RoundTrip<'de, C>>::src_valid(&Ok(a)) == (A::src_valid(&a)),
        <Result<A, B> as RoundTrip<'de, C>>::src_valid(&Err(b)) == (B::src_valid(&b)),
        <Result<A, B> as RoundTrip<'de, C>>::needs_backing()
            == (A::needs_backing() || B::needs_backing()),
        <Bound<A> as RoundTrip<'de, C>>::round_trips() == (A::round_trips()),
        <Bound<A> as RoundTrip<'de, C>>::src_valid(&Bound::Unbounded),
        <Bound<A> as RoundTrip<'de, C>>::src_valid(&Bound::Included(a)) == (A::src_valid(&a)),
        <Bound<A> as RoundTrip<'de, C>>::src_valid(&Bound::Excluded(a)) == (A::src_valid(&a)),
        <Bound<A> as RoundTrip<'de, C>>::needs_backing() == (A::needs_backing()),
{
}

} // verus!
