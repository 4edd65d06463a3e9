//! Arrays, whose length is known, and slices, whose length is written in front.
use crate::config::{Config, ConfigCore};
use crate::error::{ReadError, ReadResult, WriteError, WriteResult};
use crate::io::{Reader, Writer};
use crate::len::SeqLen;
use crate::model::{
    lemma_wrote_empty, lemma_wrote_first, lemma_wrote_nothing, lemma_wrote_then, Emit, Fault, Input,
};
use crate::schema::containers::decode::{
    all_valid, dec_window, decode_vec, dst_vals, lemma_dec_n, lemma_dec_n_round_trip, src_vals,
};
use crate::schema::elems::{
    emit_all, lemma_emit_all, lemma_emit_all_split, lemma_emit_all_step, seq_emit, seq_size_err,
    size_err_all, size_of_elem_slice, write_elem_slice,
};
use crate::schema::{Model, RoundTrip, SchemaRead, SchemaWrite, TypeMeta};
use vstd::prelude::*;

verus! {

broadcast use {
    crate::model::lemma_follows_transitive,
    crate::model::lemma_follows_reflexive,
    crate::model::lemma_then_consistent,
};

/// `<[T; N]>::try_from` of a vector of `N` elements: the same elements, in an array.
#[verifier::external_body]
pub(crate) fn array_from_vec<T, const N: usize>(v: Vec<T>) -> (a: [T; N])
    requires
        v@.len() == N,
    ensures
        a@ == v@,
{
    v.try_into().ok().unwrap()
}

/// What is known of the layout of `n` values of which each has the layout `elem`.
pub open spec fn array_meta(elem: TypeMeta, n: nat) -> TypeMeta {
    match elem {
        TypeMeta::Static { size, zero_copy } => if n * (size as nat) <= usize::MAX {
            TypeMeta::Static { size: (n * (size as nat)) as usize, zero_copy }
        } else {
            TypeMeta::Dynamic
        },
        TypeMeta::Dynamic => TypeMeta::Dynamic,
    }
}

/// See [`array_meta`].
pub fn type_meta_of_array(elem: TypeMeta, n: usize) -> (m: TypeMeta)
    ensures
        m == array_meta(elem, n as nat),
{
    match elem {
        TypeMeta::Static { size, zero_copy } => match n.checked_mul(size) {
            Some(size) => TypeMeta::Static { size, zero_copy },
            None => TypeMeta::Dynamic,
        },
        TypeMeta::Dynamic => TypeMeta::Dynamic,
    }
}

proof fn lemma_write_step<T: SchemaWrite<C>, C: ConfigCore>(
    s: Seq<T::Src>,
    i: int,
    p0: crate::model::Output,
    now: crate::model::Output,
    next: crate::model::Output,
    r: WriteResult<()>,
)
    requires
        0 <= i < s.len(),
        emit_all::<T, C>(s.take(i)).wrote(p0, now, Ok(())),
        T::emit(&s[i]).wrote(now, next, r),
    ensures
        r is Ok ==> emit_all::<T, C>(s.take(i + 1)).wrote(p0, next, Ok(())),
        r matches Err(e) ==> emit_all::<T, C>(s).wrote(p0, next, Err(e)),
{
    let done = emit_all::<T, C>(s.take(i));
    let one = T::emit(&s[i]);
    lemma_emit_all::<T, C>(s.take(i));
    lemma_emit_all_step::<T, C>(s, i);
    lemma_wrote_then(done, one, p0, now, next, r);
    if let Err(e) = r {
        T::lemma_emit(&s[i]);
        lemma_emit_all_split::<T, C>(s, i + 1);
        lemma_wrote_first(
            done.then_emit(one),
            emit_all::<T, C>(s.skip(i + 1)),
            p0,
            next,
            e,
        );
    }
}

/// Writes the values of `src` one after the other.
pub fn write_all<T: SchemaWrite<C>, C: ConfigCore, W: Writer>(
    writer: &mut W,
    src: &[T::Src],
) -> (r: WriteResult<()>)
    ensures
        T::write_lawful() && emit_all::<T, C>(src@).weight <= usize::MAX ==> emit_all::<T, C>(
            src@,
        ).wrote(old(writer).output(), final(writer).output(), r),
{
    let ghost p0 = writer.output();
    let mut i: usize = 0;
    proof {
        assert(src@.take(0) =~= Seq::empty());
        lemma_wrote_empty(p0);
    }
    while i < src.len()
        invariant
            i <= src@.len(),
            p0 == old(writer).output(),
            T::write_lawful() && emit_all::<T, C>(src@).weight <= usize::MAX ==> emit_all::<T, C>(
                src@.take(i as int),
            ).wrote(p0, writer.output(), Ok(())),
        decreases src@.len() - i,
    {
        let ghost now = writer.output();
        let r = T::write(writer, &src[i]);
        proof {
            lemma_emit_all_step::<T, C>(src@, i as int);
            if T::write_lawful() && emit_all::<T, C>(src@).weight <= usize::MAX {
                lemma_write_step::<T, C>(src@, i as int, p0, now, writer.output(), r);
            }
        }
        match r {
            Ok(()) => {},
            Err(e) => {
                return Err(e);
            },
        }
        i = i + 1;
    }
    proof {
        assert(src@.take(i as int) =~= src@);
    }
    Ok(())
}

proof fn lemma_sum_step<T: SchemaWrite<C>, C: ConfigCore>(s: Seq<T::Src>, i: int)
    requires
        0 <= i < s.len(),
    ensures
        size_err_all::<T, C>(s.take(i)) is None ==> size_err_all::<T, C>(s.take(i + 1))
            == T::size_err(&s[i]),
        size_err_all::<T, C>(s.take(i + 1)) is Some ==> size_err_all::<T, C>(s)
            == size_err_all::<T, C>(s.take(i + 1)),
    decreases s.len(),
{
    assert(s.take(i + 1).drop_last() =~= s.take(i));
    if i + 1 == s.len() {
        assert(s.take(i + 1) =~= s);
    } else {
        lemma_sum_step::<T, C>(s.drop_last(), i);
        assert(s.drop_last().take(i + 1) =~= s.take(i + 1));
    }
}

/// The number of bytes of the values of `src` together.
pub fn size_of_all<T: SchemaWrite<C>, C: ConfigCore>(src: &[T::Src]) -> (r: WriteResult<usize>)
    ensures
        T::write_lawful() && emit_all::<T, C>(src@).weight <= usize::MAX ==> match size_err_all::<
            T,
            C,
        >(src@) {
            Some(e) => r == Err::<usize, WriteError>(e),
            None => r is Ok && r->Ok_0 == emit_all::<T, C>(src@).weight,
        },
{
    let mut sum: usize = 0;
    let mut i: usize = 0;
    proof {
        assert(src@.take(0) =~= Seq::empty());
    }
    while i < src.len()
        invariant
            i <= src@.len(),
            T::write_lawful() && emit_all::<T, C>(src@).weight <= usize::MAX ==> {
                &&& size_err_all::<T, C>(src@.take(i as int)) is None
                &&& sum == emit_all::<T, C>(src@.take(i as int)).weight
            },
        decreases src@.len() - i,
    {
        proof {
            lemma_emit_all_step::<T, C>(src@, i as int);
            lemma_sum_step::<T, C>(src@, i as int);
        }
        let n: usize = T::size_of(&src[i])?;
        sum = match sum.checked_add(n) {
            Some(sum) => sum,
            None => {
                return Err(crate::error::write_length_encoding_overflow("usize::MAX"));
            },
        };
        i = i + 1;
    }
    proof {
        assert(src@.take(i as int) =~= src@);
    }
    Ok(sum)
}

impl<T: Model, const N: usize> Model for [T; N] {
    type Val = Seq<T::Val>;
}

/// An array is its elements, one after the other.
impl<C: ConfigCore, T: SchemaWrite<C>, const N: usize> SchemaWrite<C> for [T; N] {
    type Src = [T::Src; N];

    open spec fn src_val(src: &[T::Src; N]) -> Seq<T::Val> {
        src_vals::<T, C>(src@)
    }

    open spec fn emit(src: &[T::Src; N]) -> Emit {
        emit_all::<T, C>(src@)
    }

    open spec fn size_err(src: &[T::Src; N]) -> Option<WriteError> {
        match array_meta(T::write_meta(), N as nat) {
            TypeMeta::Static { .. } => None,
            TypeMeta::Dynamic => size_err_all::<T, C>(src@),
        }
    }

    open spec fn write_meta() -> TypeMeta {
        array_meta(T::write_meta(), N as nat)
    }

    open spec fn write_lawful() -> bool {
        T::write_lawful()
    }

    proof fn lemma_emit(src: &[T::Src; N]) {
        lemma_emit_all::<T, C>(src@);
        assert(src@.len() == N);
    }

    fn type_meta() -> (m: TypeMeta) {
        type_meta_of_array(T::type_meta(), N)
    }

    fn size_of(src: &[T::Src; N]) -> (r: WriteResult<usize>) {
        proof {
            lemma_emit_all::<T, C>(src@);
        }
        if let TypeMeta::Static { size, .. } = type_meta_of_array(T::type_meta(), N) {
            return Ok(size);
        }
        size_of_all::<T, C>(src.as_slice())
    }

    fn write<W: Writer>(writer: &mut W, src: &[T::Src; N]) -> (r: WriteResult<()>) {
        if let TypeMeta::Static { size, .. } = type_meta_of_array(T::type_meta(), N) {
            match writer.expect_room(size) {
                Ok(()) => {},
                Err(e) => {
                    let e = WriteError::Io(e);
                    proof {
                        lemma_emit_all::<T, C>(src@);
                        lemma_wrote_nothing(emit_all::<T, C>(src@), old(writer).output(), e);
                    }
                    return Err(e);
                },
            }
        }
        write_all::<T, C, W>(writer, src.as_slice())
    }
}

impl<'de, C: ConfigCore, T: SchemaRead<'de, C>, const N: usize> SchemaRead<'de, C> for [T; N] {
    type Dst = [T::Dst; N];

    open spec fn dst_val(dst: &[T::Dst; N]) -> Seq<T::Val> {
        dst_vals::<T, C>(dst@)
    }

    open spec fn dec(inp: Input) -> Result<(Seq<T::Val>, Input), Fault> {
        dec_window::<T, C>(N as nat, inp)
    }

    open spec fn read_meta() -> TypeMeta {
        array_meta(T::read_meta(), N as nat)
    }

    open spec fn read_lawful() -> bool {
        T::read_lawful()
    }

    proof fn lemma_dec(inp: Input) {
        lemma_dec_n::<T, C>(N as nat, inp);
    }

    fn type_meta() -> (m: TypeMeta) {
        type_meta_of_array(T::type_meta(), N)
    }

    fn get<R: Reader<'de>>(reader: &mut R) -> (r: ReadResult<[T::Dst; N]>) {
        let v = decode_vec::<T, C, R>(reader, N)?;
        Ok(array_from_vec(v))
    }
}

impl<'de, C: ConfigCore, T: RoundTrip<'de, C>, const N: usize> RoundTrip<'de, C> for [T; N] {
    open spec fn round_trips() -> bool {
        T::round_trips()
    }

    open spec fn src_valid(src: &[T::Src; N]) -> bool {
        all_valid::<T, C>(src@)
    }

    open spec fn needs_backing() -> bool {
        T::needs_backing()
    }

    proof fn lemma_round_trip(src: &[T::Src; N], rest: Input) {
        assert(src@.len() == N);
        lemma_dec_n_round_trip::<T, C>(src@, rest);
    }
}

impl<'a, T: Model> Model for &'a [T] {
    type Val = Seq<T::Val>;
}

/// A slice is its length and its elements. The memory that it asks for is not checked: it is
/// read in place.
impl<'a, C: Config, T: SchemaWrite<C>> SchemaWrite<C> for &'a [T] where T::Src: 'a {
    type Src = &'a [T::Src];

    open spec fn src_val(src: &&'a [T::Src]) -> Seq<T::Val> {
        src_vals::<T, C>(src@)
    }

    open spec fn emit(src: &&'a [T::Src]) -> Emit {
        seq_emit::<T, C::LengthEncoding, C>(src@)
    }

    open spec fn size_err(src: &&'a [T::Src]) -> Option<WriteError> {
        seq_size_err::<T, C::LengthEncoding, C>(src@)
    }

    open spec fn write_meta() -> TypeMeta {
        TypeMeta::Dynamic
    }

    open spec fn write_lawful() -> bool {
        T::write_lawful()
    }

    proof fn lemma_emit(src: &&'a [T::Src]) {
        C::LengthEncoding::lemma_len_emit(src@.len());
        lemma_emit_all::<T, C>(src@);
    }

    fn type_meta() -> (m: TypeMeta) {
        TypeMeta::Dynamic
    }

    fn size_of(src: &&'a [T::Src]) -> (r: WriteResult<usize>) {
        size_of_elem_slice::<T, C::LengthEncoding, C>(src)
    }

    fn write<W: Writer>(writer: &mut W, src: &&'a [T::Src]) -> (r: WriteResult<()>) {
        write_elem_slice::<T, C::LengthEncoding, C, W>(writer, src)
    }
}

} // verus!
