//! Tuples: their parts, one after the other.
use crate::config::ConfigCore;
use crate::error::{ReadError, ReadResult, WriteError, WriteResult};
use crate::io::{Reader, Writer};
use crate::model::{
    lemma_prepend_prepend, lemma_wrote_first, lemma_wrote_nothing, lemma_wrote_then, Emit, Fault,
    Input,
};
use crate::schema::{Model, RoundTrip, SchemaRead, SchemaWrite, TypeMeta};
use vstd::prelude::*;

verus! {

broadcast use {
    crate::model::lemma_follows_transitive,
    crate::model::lemma_follows_reflexive,
    crate::model::lemma_then_consistent,
};

impl<A: Model> Model for (A,) {
    type Val = A::Val;
}

/// A tuple of one part is laid out as that part.
impl<C: ConfigCore, A: SchemaWrite<C>> SchemaWrite<C> for (A,) {
    type Src = (A::Src,);

    open spec fn src_val(src: &(A::Src,)) -> A::Val {
        A::src_val(&src.0)
    }

    open spec fn emit(src: &(A::Src,)) -> Emit {
        A::emit(&src.0)
    }

    open spec fn size_err(src: &(A::Src,)) -> Option<WriteError> {
        A::size_err(&src.0)
    }

    open spec fn write_meta() -> TypeMeta {
        A::write_meta().masked(false)
    }

    open spec fn write_lawful() -> bool {
        A::write_lawful()
    }

    proof fn lemma_emit(src: &(A::Src,)) {
        A::lemma_emit(&src.0);
    }

    fn type_meta() -> (m: TypeMeta) {
        A::type_meta().keep_zero_copy(false)
    }

    fn size_of(src: &(A::Src,)) -> (r: WriteResult<usize>) {
        A::size_of(&src.0)
    }

    fn write<W: Writer>(writer: &mut W, src: &(A::Src,)) -> (r: WriteResult<()>) {
        A::write(writer, &src.0)
    }
}

impl<'de, C: ConfigCore, A: SchemaRead<'de, C>> SchemaRead<'de, C> for (A,) {
    type Dst = (A::Dst,);

    open spec fn dst_val(dst: &(A::Dst,)) -> A::Val {
        A::dst_val(&dst.0)
    }

    open spec fn dec(inp: Input) -> Result<(A::Val, Input), Fault> {
        A::dec(inp)
    }

    open spec fn read_meta() -> TypeMeta {
        A::read_meta().masked(false)
    }

    open spec fn read_lawful() -> bool {
        A::read_lawful()
    }

    proof fn lemma_dec(inp: Input) {
        A::lemma_dec(inp);
    }

    fn type_meta() -> (m: TypeMeta) {
        A::type_meta().keep_zero_copy(false)
    }

    fn get<R: Reader<'de>>(reader: &mut R) -> (r: ReadResult<(A::Dst,)>) {
        let a = A::get(reader)?;
        Ok((a,))
    }
}

impl<'de, C: ConfigCore, A: RoundTrip<'de, C>> RoundTrip<'de, C> for (A,) {
    open spec fn round_trips() -> bool {
        A::round_trips()
    }

    open spec fn src_valid(src: &(A::Src,)) -> bool {
        A::src_valid(&src.0)
    }

    open spec fn needs_backing() -> bool {
        A::needs_backing()
    }

    proof fn lemma_round_trip(src: &(A::Src,), rest: Input) {
        A::lemma_round_trip(&src.0, rest);
    }
}

/// What is known of two types that stand one after the other in a tuple. Their place in memory
/// is not known, so they are never eligible for zero-copy.
pub open spec fn pair_meta(a: TypeMeta, b: TypeMeta) -> TypeMeta {
    match (a, b) {
        (
            TypeMeta::Static { size: a_size, .. },
            TypeMeta::Static { size: b_size, .. },
        ) => if a_size + b_size <= usize::MAX {
            TypeMeta::Static { size: (a_size + b_size) as usize, zero_copy: false }
        } else {
            TypeMeta::Dynamic
        },
        _ => TypeMeta::Dynamic,
    }
}

/// See [`pair_meta`].
pub fn type_meta_of_pair(a: TypeMeta, b: TypeMeta) -> (m: TypeMeta)
    ensures
        m == pair_meta(a, b),
{
    match (a, b) {
        (
            TypeMeta::Static { size: a_size, .. },
            TypeMeta::Static { size: b_size, .. },
        ) => match a_size.checked_add(b_size) {
            Some(size) => TypeMeta::Static { size, zero_copy: false },
            None => TypeMeta::Dynamic,
        },
        _ => TypeMeta::Dynamic,
    }
}

/// Writing `a` and then `b`.
pub open spec fn pair_emit<A: SchemaWrite<C>, B: SchemaWrite<C>, C: ConfigCore>(
    a: &A::Src,
    b: &B::Src,
) -> Emit {
    A::emit(a).then_emit(B::emit(b))
}

/// Why the size of `a` and `b` cannot be told, by the first of them.
pub open spec fn pair_size_err<A: SchemaWrite<C>, B: SchemaWrite<C>, C: ConfigCore>(
    a: &A::Src,
    b: &B::Src,
) -> Option<WriteError> {
    match A::size_err(a) {
        Some(e) => Some(e),
        None => B::size_err(b),
    }
}

/// Reading an `A` and then a `B`.
pub open spec fn pair_dec<'de, A: SchemaRead<'de, C>, B: SchemaRead<'de, C>, C: ConfigCore>(
    inp: Input,
) -> Result<((A::Val, B::Val), Input), Fault> {
    match A::dec(inp) {
        Ok((a, mid)) => match B::dec(mid) {
            Ok((b, rest)) => Ok(((a, b), rest)),
            Err(e) => Err(e),
        },
        Err(e) => Err(e),
    }
}

/// As [`pair_dec`], except that with a statically known size nothing is read unless that many bytes
/// are left.
pub open spec fn pair_dec_window<'de, A: SchemaRead<'de, C>, B: SchemaRead<'de, C>, C: ConfigCore>(
    inp: Input,
) -> Result<((A::Val, B::Val), Input), Fault> {
    match pair_meta(A::read_meta(), B::read_meta()) {
        TypeMeta::Static { size, .. } => if inp.bytes.len() < size {
            Err(inp.fault(ReadError::Io(crate::io::ReadError::ReadSizeLimit(size))))
        } else {
            pair_dec::<A, B, C>(inp)
        },
        TypeMeta::Dynamic => pair_dec::<A, B, C>(inp),
    }
}

/// Writes `a` and then `b`.
pub fn write_pair<A: SchemaWrite<C>, B: SchemaWrite<C>, C: ConfigCore, W: Writer>(
    writer: &mut W,
    a: &A::Src,
    b: &B::Src,
) -> (r: WriteResult<()>)
    ensures
        A::write_lawful() && B::write_lawful() && pair_emit::<A, B, C>(a, b).weight <= usize::MAX
            ==> pair_emit::<A, B, C>(a, b).wrote(old(writer).output(), final(writer).output(), r),
{
    let ghost p0 = writer.output();
    let first = A::write(writer, a);
    let ghost p1 = writer.output();
    proof {
        A::lemma_emit(a);
    }
    match first {
        Ok(()) => {},
        Err(e) => {
            proof {
                if A::write_lawful() && B::write_lawful() && pair_emit::<A, B, C>(a, b).weight
                    <= usize::MAX {
                    lemma_wrote_first(A::emit(a), B::emit(b), p0, p1, e);
                }
            }
            return Err(e);
        },
    }
    let second = B::write(writer, b);
    proof {
        if A::write_lawful() && B::write_lawful() && pair_emit::<A, B, C>(a, b).weight
            <= usize::MAX {
            lemma_wrote_then(A::emit(a), B::emit(b), p0, p1, writer.output(), second);
        }
    }
    second
}

/// As [`write_pair`], except that with a statically known size nothing is written unless there is
/// room for both.
pub fn write_pair_window<A: SchemaWrite<C>, B: SchemaWrite<C>, C: ConfigCore, W: Writer>(
    writer: &mut W,
    a: &A::Src,
    b: &B::Src,
) -> (r: WriteResult<()>)
    ensures
        A::write_lawful() && B::write_lawful() && pair_emit::<A, B, C>(a, b).weight <= usize::MAX
            ==> pair_emit::<A, B, C>(a, b).wrote(old(writer).output(), final(writer).output(), r),
{
    if let TypeMeta::Static { size, .. } = type_meta_of_pair(A::type_meta(), B::type_meta()) {
        match writer.expect_room(size) {
            Ok(()) => {},
            Err(e) => {
                let e = WriteError::Io(e);
                proof {
                    lemma_pair_emit::<A, B, C>(a, b);
                    lemma_wrote_nothing(pair_emit::<A, B, C>(a, b), old(writer).output(), e);
                }
                return Err(e);
            },
        }
    }
    write_pair::<A, B, C, W>(writer, a, b)
}

/// Reads an `A` and then a `B`. With a statically known size nothing is read unless that many
/// bytes are left.
pub fn read_pair<'de, A: SchemaRead<'de, C>, B: SchemaRead<'de, C>, C: ConfigCore, R: Reader<'de>>(
    reader: &mut R,
) -> (r: ReadResult<(A::Dst, B::Dst)>)
    ensures
        final(reader).input().follows(old(reader).input()),
        A::read_lawful() && B::read_lawful() ==> match pair_dec_window::<A, B, C>(
            old(reader).input(),
        ) {
            Ok(((a, b), rest)) => {
                &&& r is Ok
                &&& A::dst_val(&(r->Ok_0).0) == a
                &&& B::dst_val(&(r->Ok_0).1) == b
                &&& final(reader).input() == rest
            },
            Err(f) => r is Err && r->Err_0 == f.err && final(reader).input() == f.left,
        },
{
    if let TypeMeta::Static { size, .. } = type_meta_of_pair(A::type_meta(), B::type_meta()) {
        match reader.expect_available(size) {
            Ok(()) => {},
            Err(e) => {
                return Err(ReadError::Io(e));
            },
        }
    }
    let a = A::get(reader)?;
    let b = B::get(reader)?;
    Ok((a, b))
}

/// The number of bytes of `a` and `b` together, if that is a number.
pub fn size_of_pair<A: SchemaWrite<C>, B: SchemaWrite<C>, C: ConfigCore>(
    a: &A::Src,
    b: &B::Src,
) -> (r: WriteResult<usize>)
    ensures
        A::write_lawful() && B::write_lawful() && pair_emit::<A, B, C>(a, b).weight <= usize::MAX
            ==> match pair_size_err::<A, B, C>(a, b) {
            Some(e) => r == Err::<usize, WriteError>(e),
            None => r is Ok && r->Ok_0 == pair_emit::<A, B, C>(a, b).weight,
        },
{
    let n: usize = A::size_of(a)?;
    let m: usize = B::size_of(b)?;
    match n.checked_add(m) {
        Some(size) => Ok(size),
        None => Err(crate::error::write_length_encoding_overflow("usize::MAX")),
    }
}

pub proof fn lemma_pair_emit<A: SchemaWrite<C>, B: SchemaWrite<C>, C: ConfigCore>(
    a: &A::Src,
    b: &B::Src,
)
    ensures
        pair_emit::<A, B, C>(a, b).consistent(),
        pair_emit::<A, B, C>(a, b).ok() ==> pair_size_err::<A, B, C>(a, b) is None,
        pair_meta(A::write_meta(), B::write_meta()) matches TypeMeta::Static { size, .. }
            ==> {
            &&& pair_emit::<A, B, C>(a, b).weight == size
            &&& !pair_emit::<A, B, C>(a, b).over_limit()
        },
{
    A::lemma_emit(a);
    B::lemma_emit(b);
}

pub proof fn lemma_pair_dec<'de, A: SchemaRead<'de, C>, B: SchemaRead<'de, C>, C: ConfigCore>(
    inp: Input,
)
    ensures
        pair_dec::<A, B, C>(inp) matches Err(f) ==> f.left.follows(inp),
        pair_dec::<A, B, C>(inp) matches Ok((v, rest)) ==> {
            &&& rest.follows(inp)
            &&& pair_meta(A::read_meta(), B::read_meta()) matches TypeMeta::Static { size, .. }
                ==> inp.consumed(rest) == size
        },
{
    A::lemma_dec(inp);
    if let Ok((a, mid)) = A::dec(inp) {
        B::lemma_dec(mid);
    }
}

pub proof fn lemma_pair_round_trip<'de, A: RoundTrip<'de, C>, B: RoundTrip<'de, C>, C: ConfigCore>(
    a: &A::Src,
    b: &B::Src,
    rest: Input,
)
    requires
        A::round_trips(),
        B::round_trips(),
        A::src_valid(a),
        B::src_valid(b),
        A::needs_backing() || B::needs_backing() ==> rest.backing,
        pair_emit::<A, B, C>(a, b).ok(),
        pair_emit::<A, B, C>(a, b).weight <= usize::MAX,
    ensures
        pair_dec::<A, B, C>(rest.prepend(pair_emit::<A, B, C>(a, b).bytes)) == Ok::<_, Fault>(
            ((A::src_val(a), B::src_val(b)), rest),
        ),
        pair_dec_window::<A, B, C>(rest.prepend(pair_emit::<A, B, C>(a, b).bytes)) == Ok::<
            _,
            Fault,
        >(((A::src_val(a), B::src_val(b)), rest)),
{
    let mid = rest.prepend(B::emit(b).bytes);
    lemma_prepend_prepend(rest, A::emit(a).bytes, B::emit(b).bytes);
    A::lemma_round_trip(a, mid);
    B::lemma_round_trip(b, rest);
    lemma_pair_dec::<A, B, C>(rest.prepend(pair_emit::<A, B, C>(a, b).bytes));
}

impl<A: Model, B: Model> Model for (A, B) {
    type Val = (A::Val, B::Val);
}

impl<C: ConfigCore, A: SchemaWrite<C>, B: SchemaWrite<C>> SchemaWrite<C> for (A, B) {
    type Src = (A::Src, B::Src);

    open spec fn src_val(src: &(A::Src, B::Src)) -> (A::Val, B::Val) {
        (A::src_val(&src.0), B::src_val(&src.1))
    }

    open spec fn emit(src: &(A::Src, B::Src)) -> Emit {
        pair_emit::<A, B, C>(&src.0, &src.1)
    }

    open spec fn size_err(src: &(A::Src, B::Src)) -> Option<WriteError> {
        match pair_meta(A::write_meta(), B::write_meta()) {
            TypeMeta::Static { .. } => None,
            TypeMeta::Dynamic => pair_size_err::<A, B, C>(&src.0, &src.1),
        }
    }

    open spec fn write_meta() -> TypeMeta {
        pair_meta(A::write_meta(), B::write_meta())
    }

    open spec fn write_lawful() -> bool {
        A::write_lawful() && B::write_lawful()
    }

    proof fn lemma_emit(src: &(A::Src, B::Src)) {
        lemma_pair_emit::<A, B, C>(&src.0, &src.1);
    }

    fn type_meta() -> (m: TypeMeta) {
        type_meta_of_pair(A::type_meta(), B::type_meta())
    }

    fn size_of(src: &(A::Src, B::Src)) -> (r: WriteResult<usize>) {
        if let TypeMeta::Static { size, .. } = type_meta_of_pair(A::type_meta(), B::type_meta()) {
            proof {
                lemma_pair_emit::<A, B, C>(&src.0, &src.1);
            }
            return Ok(size);
        }
        size_of_pair::<A, B, C>(&src.0, &src.1)
    }

    fn write<W: Writer>(writer: &mut W, src: &(A::Src, B::Src)) -> (r: WriteResult<()>) {
        write_pair_window::<A, B, C, W>(writer, &src.0, &src.1)
    }
}

impl<'de, C: ConfigCore, A: SchemaRead<'de, C>, B: SchemaRead<'de, C>> SchemaRead<'de, C> for (
    A,
    B,
) {
    type Dst = (A::Dst, B::Dst);

    open spec fn dst_val(dst: &(A::Dst, B::Dst)) -> (A::Val, B::Val) {
        (A::dst_val(&dst.0), B::dst_val(&dst.1))
    }

    open spec fn dec(inp: Input) -> Result<((A::Val, B::Val), Input), Fault> {
        pair_dec_window::<A, B, C>(inp)
    }

    open spec fn read_meta() -> TypeMeta {
        pair_meta(A::read_meta(), B::read_meta())
    }

    open spec fn read_lawful() -> bool {
        A::read_lawful() && B::read_lawful()
    }

    proof fn lemma_dec(inp: Input) {
        lemma_pair_dec::<A, B, C>(inp);
    }

    fn type_meta() -> (m: TypeMeta) {
        type_meta_of_pair(A::type_meta(), B::type_meta())
    }

    fn get<R: Reader<'de>>(reader: &mut R) -> (r: ReadResult<(A::Dst, B::Dst)>) {
        read_pair::<A, B, C, R>(reader)
    }
}

impl<'de, C: ConfigCore, A: RoundTrip<'de, C>, B: RoundTrip<'de, C>> RoundTrip<'de, C> for (
    A,
    B,
) {
    open spec fn round_trips() -> bool {
        A::round_trips() && B::round_trips()
    }

    open spec fn src_valid(src: &(A::Src, B::Src)) -> bool {
        A::src_valid(&src.0) && B::src_valid(&src.1)
    }

    open spec fn needs_backing() -> bool {
        A::needs_backing() || B::needs_backing()
    }

    proof fn lemma_round_trip(src: &(A::Src, B::Src), rest: Input) {
        lemma_pair_round_trip::<A, B, C>(&src.0, &src.1, rest);
    }
}

} // verus!
