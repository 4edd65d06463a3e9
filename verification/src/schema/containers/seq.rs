//! Sequences: their length and then their elements.
use crate::config::{Config, ConfigCore};
use crate::error::{ReadResult, WriteError, WriteResult};
use crate::io::{Reader, Writer};
use crate::len::{len_dec_checked, limit_kept, SeqLen};
use crate::model::{lemma_prepend_prepend, Emit, Fault, Input};
use crate::schema::containers::decode::{
    all_valid, dec_window, decode_vec, dst_vals, lemma_dec_n, lemma_dec_n_round_trip, src_vals,
};
use crate::schema::elems::{
    emit_all, lemma_emit_all, lent_all, seq_emit_checked, seq_size_err, size_of_elem_iter,
    size_of_elem_slice, write_elem_iter_prealloc_check, write_elem_slice_prealloc_check,
};
use crate::schema::context;
use crate::schema::{
    Model, RoundTrip, SchemaRead, SchemaReadContext, SchemaWrite, TypeMeta,
};
use core::marker::PhantomData;
use vstd::layout;
use vstd::prelude::*;
use vstd::std_specs::iter::IteratorSpec;

verus! {

broadcast use {
    crate::model::lemma_follows_transitive,
    crate::model::lemma_follows_reflexive,
    crate::model::lemma_then_consistent,
};

/// Reading a sequence: its length, of which the memory that it asks for is checked, and its
/// elements.
pub open spec fn seq_dec<'de, T: SchemaRead<'de, C>, Len: SeqLen<C>, C: ConfigCore>(
    inp: Input,
) -> Result<(Seq<T::Val>, Input), Fault> {
    match len_dec_checked::<Len, C, T::Dst>(inp) {
        Ok((len, mid)) => dec_window::<T, C>(len, mid),
        Err(e) => Err(e),
    }
}

pub proof fn lemma_seq_emit<T: SchemaWrite<C>, Len: SeqLen<C>, C: ConfigCore>(
    s: Seq<T::Src>,
)
    ensures
        seq_emit_checked::<T, Len, C>(s).consistent(),
        seq_emit_checked::<T, Len, C>(s).ok() ==> seq_size_err::<T, Len, C>(s) is None,
        seq_emit_checked::<T, Len, C>(s).weight == Len::len_emit(s.len()).weight + emit_all::<
            T,
            C,
        >(s).weight,
{
    Len::lemma_len_emit(s.len());
    lemma_emit_all::<T, C>(s);
}

pub proof fn lemma_seq_dec<'de, T: SchemaRead<'de, C>, Len: SeqLen<C>, C: ConfigCore>(inp: Input)
    ensures
        seq_dec::<T, Len, C>(inp) matches Err(f) ==> f.left.follows(inp),
        seq_dec::<T, Len, C>(inp) matches Ok((vs, rest)) ==> rest.follows(inp),
{
    Len::lemma_len_dec(inp);
    if let Ok((len, mid)) = len_dec_checked::<Len, C, T::Dst>(inp) {
        lemma_dec_n::<T, C>(len, mid);
    }
}

/// Whether a sequence of what `T` writes can be a sequence of what `T` reads.
pub open spec fn seq_round_trips<'de, T: RoundTrip<'de, C>, C: ConfigCore>() -> bool {
    &&& T::round_trips()
    &&& layout::size_of::<T::Src>() == layout::size_of::<T::Dst>()
}

/// A sequence that can be written is accepted on read-back, under the same configuration and with
/// the same length encoding, and reading gives back its values.
pub proof fn lemma_seq_round_trip<'de, T: RoundTrip<'de, C>, Len: SeqLen<C>, C: ConfigCore>(
    s: Seq<T::Src>,
    rest: Input,
)
    requires
        seq_round_trips::<T, C>(),
        all_valid::<T, C>(s),
        T::needs_backing() ==> rest.backing,
        s.len() <= usize::MAX,
        seq_emit_checked::<T, Len, C>(s).ok(),
        seq_emit_checked::<T, Len, C>(s).weight <= usize::MAX,
    ensures
        seq_dec::<T, Len, C>(rest.prepend(seq_emit_checked::<T, Len, C>(s).bytes)) == Ok::<
            _,
            Fault,
        >((src_vals::<T, C>(s), rest)),
{
    let body = emit_all::<T, C>(s);
    let mid = rest.prepend(body.bytes);
    lemma_prepend_prepend(rest, Len::len_emit(s.len()).bytes, body.bytes);
    Len::lemma_len_round_trip(s.len(), mid);
    lemma_dec_n_round_trip::<T, C>(s, rest);
}

/// Reads a sequence into a vector.
pub fn read_seq<'de, T, Len, C, R>(reader: &mut R) -> (r: ReadResult<std::vec::Vec<T::Dst>>) where
    C: ConfigCore,
    Len: SeqLen<C>,
    T: SchemaRead<'de, C>,
    R: Reader<'de>,

    ensures
        final(reader).input().follows(old(reader).input()),
        T::read_lawful() ==> match seq_dec::<T, Len, C>(old(reader).input()) {
            Ok((vs, rest)) => {
                &&& r is Ok
                &&& dst_vals::<T, C>(r->Ok_0@) == vs
                &&& final(reader).input() == rest
            },
            Err(f) => r is Err && r->Err_0 == f.err && final(reader).input() == f.left,
        },
{
    let len: usize = Len::read_prealloc_check::<T::Dst, R>(reader)?;
    decode_vec::<T, C, R>(reader, len)
}

/// A [`std::vec::Vec`] with the length encoding `Len`.
pub struct Vec<T, Len>(PhantomData<Len>, PhantomData<T>);

impl<T: Model, Len> Model for Vec<T, Len> {
    type Val = Seq<T::Val>;
}

impl<C: ConfigCore, T: SchemaWrite<C>, Len: SeqLen<C>> SchemaWrite<C> for Vec<T, Len> {
    type Src = std::vec::Vec<T::Src>;

    open spec fn src_val(src: &std::vec::Vec<T::Src>) -> Seq<T::Val> {
        src_vals::<T, C>(src@)
    }

    open spec fn emit(src: &std::vec::Vec<T::Src>) -> Emit {
        seq_emit_checked::<T, Len, C>(src@)
    }

    open spec fn size_err(src: &std::vec::Vec<T::Src>) -> Option<WriteError> {
        seq_size_err::<T, Len, C>(src@)
    }

    open spec fn write_meta() -> TypeMeta {
        TypeMeta::Dynamic
    }

    open spec fn write_lawful() -> bool {
        T::write_lawful()
    }

    proof fn lemma_emit(src: &std::vec::Vec<T::Src>) {
        lemma_seq_emit::<T, Len, C>(src@);
    }

    fn type_meta() -> (m: TypeMeta) {
        TypeMeta::Dynamic
    }

    fn size_of(src: &std::vec::Vec<T::Src>) -> (r: WriteResult<usize>) {
        proof {
            lemma_seq_emit::<T, Len, C>(src@);
        }
        size_of_elem_slice::<T, Len, C>(src.as_slice())
    }

    fn write<W: Writer>(writer: &mut W, src: &std::vec::Vec<T::Src>) -> (r: WriteResult<()>)
        ensures
            limit_kept::<C, T::Src>(
                src@.len(),
                old(writer).output(),
                final(writer).output(),
                r,
            ),
    {
        write_elem_slice_prealloc_check::<T, Len, C, W>(writer, src.as_slice())
    }
}

impl<'de, C: ConfigCore, T: SchemaRead<'de, C>, Len: SeqLen<C>> SchemaRead<'de, C> for Vec<T, Len> {
    type Dst = std::vec::Vec<T::Dst>;

    open spec fn dst_val(dst: &std::vec::Vec<T::Dst>) -> Seq<T::Val> {
        dst_vals::<T, C>(dst@)
    }

    open spec fn dec(inp: Input) -> Result<(Seq<T::Val>, Input), Fault> {
        seq_dec::<T, Len, C>(inp)
    }

    open spec fn read_meta() -> TypeMeta {
        TypeMeta::Dynamic
    }

    open spec fn read_lawful() -> bool {
        T::read_lawful()
    }

    proof fn lemma_dec(inp: Input) {
        lemma_seq_dec::<T, Len, C>(inp);
    }

    fn type_meta() -> (m: TypeMeta) {
        TypeMeta::Dynamic
    }

    fn get<R: Reader<'de>>(reader: &mut R) -> (r: ReadResult<std::vec::Vec<T::Dst>>) {
        read_seq::<T, Len, C, R>(reader)
    }
}

impl<'de, C: ConfigCore, T: RoundTrip<'de, C>, Len: SeqLen<C>> RoundTrip<'de, C> for Vec<T, Len> {
    open spec fn round_trips() -> bool {
        seq_round_trips::<T, C>()
    }

    open spec fn src_valid(src: &std::vec::Vec<T::Src>) -> bool {
        all_valid::<T, C>(src@)
    }

    open spec fn needs_backing() -> bool {
        T::needs_backing()
    }

    proof fn lemma_round_trip(src: &std::vec::Vec<T::Src>, rest: Input) {
        assert(src@.len() == src.len());
        lemma_seq_round_trip::<T, Len, C>(src@, rest);
    }
}

impl<T: Model> Model for std::vec::Vec<T> {
    type Val = Seq<T::Val>;
}

/// As [`Vec`], with the length encoding of the configuration.
impl<C: Config, T: SchemaWrite<C>> SchemaWrite<C> for std::vec::Vec<T> {
    type Src = std::vec::Vec<T::Src>;

    open spec fn src_val(src: &std::vec::Vec<T::Src>) -> Seq<T::Val> {
        src_vals::<T, C>(src@)
    }

    open spec fn emit(src: &std::vec::Vec<T::Src>) -> Emit {
        seq_emit_checked::<T, C::LengthEncoding, C>(src@)
    }

    open spec fn size_err(src: &std::vec::Vec<T::Src>) -> Option<WriteError> {
        seq_size_err::<T, C::LengthEncoding, C>(src@)
    }

    open spec fn write_meta() -> TypeMeta {
        TypeMeta::Dynamic
    }

    open spec fn write_lawful() -> bool {
        T::write_lawful()
    }

    proof fn lemma_emit(src: &std::vec::Vec<T::Src>) {
        lemma_seq_emit::<T, C::LengthEncoding, C>(src@);
    }

    fn type_meta() -> (m: TypeMeta) {
        TypeMeta::Dynamic
    }

    fn size_of(src: &std::vec::Vec<T::Src>) -> (r: WriteResult<usize>) {
        <Vec<T, C::LengthEncoding> as SchemaWrite<C>>::size_of(src)
    }

    fn write<W: Writer>(writer: &mut W, src: &std::vec::Vec<T::Src>) -> (r: WriteResult<()>)
        ensures
            limit_kept::<C, T::Src>(
                src@.len(),
                old(writer).output(),
                final(writer).output(),
                r,
            ),
    {
        <Vec<T, C::LengthEncoding> as SchemaWrite<C>>::write(writer, src)
    }
}

impl<'de, C: Config, T: SchemaRead<'de, C>> SchemaRead<'de, C> for std::vec::Vec<T> {
    type Dst = std::vec::Vec<T::Dst>;

    open spec fn dst_val(dst: &std::vec::Vec<T::Dst>) -> Seq<T::Val> {
        dst_vals::<T, C>(dst@)
    }

    open spec fn dec(inp: Input) -> Result<(Seq<T::Val>, Input), Fault> {
        seq_dec::<T, C::LengthEncoding, C>(inp)
    }

    open spec fn read_meta() -> TypeMeta {
        TypeMeta::Dynamic
    }

    open spec fn read_lawful() -> bool {
        T::read_lawful()
    }

    proof fn lemma_dec(inp: Input) {
        lemma_seq_dec::<T, C::LengthEncoding, C>(inp);
    }

    fn type_meta() -> (m: TypeMeta) {
        TypeMeta::Dynamic
    }

    fn get<R: Reader<'de>>(reader: &mut R) -> (r: ReadResult<std::vec::Vec<T::Dst>>) {
        read_seq::<T, C::LengthEncoding, C, R>(reader)
    }
}

impl<'de, C: Config, T: RoundTrip<'de, C>> RoundTrip<'de, C> for std::vec::Vec<T> {
    open spec fn round_trips() -> bool {
        seq_round_trips::<T, C>()
    }

    open spec fn src_valid(src: &std::vec::Vec<T::Src>) -> bool {
        all_valid::<T, C>(src@)
    }

    open spec fn needs_backing() -> bool {
        T::needs_backing()
    }

    proof fn lemma_round_trip(src: &std::vec::Vec<T::Src>, rest: Input) {
        assert(src@.len() == src.len());
        lemma_seq_round_trip::<T, C::LengthEncoding, C>(src@, rest);
    }
}

/// A vector of a known length is its elements.
impl<'de, C: ConfigCore, T: SchemaRead<'de, C>> SchemaReadContext<
    'de,
    C,
    context::Len,
> for std::vec::Vec<T> {
    type Dst = std::vec::Vec<T::Dst>;

    open spec fn context_val(dst: &std::vec::Vec<T::Dst>) -> Seq<T::Val> {
        dst_vals::<T, C>(dst@)
    }

    open spec fn context_dec(ctx: context::Len, inp: Input) -> Result<
        (Seq<T::Val>, Input),
        Fault,
    > {
        dec_window::<T, C>(ctx.0 as nat, inp)
    }

    open spec fn context_lawful() -> bool {
        T::read_lawful()
    }

    fn get_with_context<R: Reader<'de>>(ctx: context::Len, reader: &mut R) -> (r: ReadResult<
        std::vec::Vec<T::Dst>,
    >) {
        decode_vec::<T, C, R>(reader, ctx.0)
    }
}

/// The elements of `v`, in a deque.
pub fn deque_from_vec<T>(v: std::vec::Vec<T>) -> (d: std::collections::VecDeque<T>)
    ensures
        d@ == v@,
{
    let ghost all = v@;
    let mut v = v;
    let mut d: std::collections::VecDeque<T> = std::collections::VecDeque::new();
    while v.len() > 0
        invariant
            v@ + d@ == all,
        decreases v@.len(),
    {
        match v.pop() {
            Some(x) => {
                let ghost (front, back) = (v@, d@);
                d.push_front(x);
                proof {
                    assert(front.push(x) + back =~= front + d@);
                }
            },
            None => {},
        }
    }
    proof {
        assert(v@ + d@ =~= d@);
    }
    d
}

/// A [`std::collections::VecDeque`] with the length encoding `Len`.
pub struct VecDeque<T, Len>(PhantomData<Len>, PhantomData<T>);

impl<T: Model, Len> Model for VecDeque<T, Len> {
    type Val = Seq<T::Val>;
}

impl<C: ConfigCore, T: SchemaWrite<C>, Len: SeqLen<C>> SchemaWrite<C> for VecDeque<T, Len> {
    type Src = std::collections::VecDeque<T::Src>;

    open spec fn src_val(src: &std::collections::VecDeque<T::Src>) -> Seq<T::Val> {
        src_vals::<T, C>(src@)
    }

    open spec fn emit(src: &std::collections::VecDeque<T::Src>) -> Emit {
        seq_emit_checked::<T, Len, C>(src@)
    }

    open spec fn size_err(src: &std::collections::VecDeque<T::Src>) -> Option<WriteError> {
        seq_size_err::<T, Len, C>(src@)
    }

    open spec fn write_meta() -> TypeMeta {
        TypeMeta::Dynamic
    }

    open spec fn write_lawful() -> bool {
        T::write_lawful()
    }

    proof fn lemma_emit(src: &std::collections::VecDeque<T::Src>) {
        lemma_seq_emit::<T, Len, C>(src@);
    }

    fn type_meta() -> (m: TypeMeta) {
        TypeMeta::Dynamic
    }

    fn size_of(src: &std::collections::VecDeque<T::Src>) -> (r: WriteResult<usize>) {
        proof {
            lemma_seq_emit::<T, Len, C>(src@);
        }
        proof {
            lemma_emit_all::<T, C>(src@);
        }
        let it = src.iter();
        assert(lent_all::<T::Src, _>(it.remaining()) =~= src@);
        size_of_elem_iter::<T, Len, C, _, _>(src.len(), it)
    }

    fn write<W: Writer>(
        writer: &mut W,
        src: &std::collections::VecDeque<T::Src>,
    ) -> (r: WriteResult<()>)
        ensures
            limit_kept::<C, T::Src>(
                src@.len(),
                old(writer).output(),
                final(writer).output(),
                r,
            ),
    {
        proof {
            crate::schema::elems::lemma_emit_first::<T, C>(src@, src@.len());
        }
        let it = src.iter();
        assert(lent_all::<T::Src, _>(it.remaining()) =~= src@);
        write_elem_iter_prealloc_check::<T, Len, C, W, _, _>(writer, src.len(), it)
    }
}

impl<
    'de,
    C: ConfigCore,
    T: SchemaRead<'de, C>,
    Len: SeqLen<C>,
> SchemaRead<'de, C> for VecDeque<T, Len> {
    type Dst = std::collections::VecDeque<T::Dst>;

    open spec fn dst_val(dst: &std::collections::VecDeque<T::Dst>) -> Seq<T::Val> {
        dst_vals::<T, C>(dst@)
    }

    open spec fn dec(inp: Input) -> Result<(Seq<T::Val>, Input), Fault> {
        seq_dec::<T, Len, C>(inp)
    }

    open spec fn read_meta() -> TypeMeta {
        TypeMeta::Dynamic
    }

    open spec fn read_lawful() -> bool {
        T::read_lawful()
    }

    proof fn lemma_dec(inp: Input) {
        lemma_seq_dec::<T, Len, C>(inp);
    }

    fn type_meta() -> (m: TypeMeta) {
        TypeMeta::Dynamic
    }

    fn get<R: Reader<'de>>(reader: &mut R) -> (r: ReadResult<std::collections::VecDeque<T::Dst>>) {
        let v = read_seq::<T, Len, C, R>(reader)?;
        Ok(deque_from_vec(v))
    }
}

impl<
    'de,
    C: ConfigCore,
    T: RoundTrip<'de, C>,
    Len: SeqLen<C>,
> RoundTrip<'de, C> for VecDeque<T, Len> {
    open spec fn round_trips() -> bool {
        seq_round_trips::<T, C>()
    }

    open spec fn src_valid(src: &std::collections::VecDeque<T::Src>) -> bool {
        all_valid::<T, C>(src@)
    }

    open spec fn needs_backing() -> bool {
        T::needs_backing()
    }

    proof fn lemma_round_trip(src: &std::collections::VecDeque<T::Src>, rest: Input) {
        assert(src@.len() == src.len());
        lemma_seq_round_trip::<T, Len, C>(src@, rest);
    }
}

impl<T: Model> Model for std::collections::VecDeque<T> {
    type Val = Seq<T::Val>;
}

/// As [`VecDeque`], with the length encoding of the configuration.
impl<C: Config, T: SchemaWrite<C>> SchemaWrite<C> for std::collections::VecDeque<T> {
    type Src = std::collections::VecDeque<T::Src>;

    open spec fn src_val(src: &std::collections::VecDeque<T::Src>) -> Seq<T::Val> {
        src_vals::<T, C>(src@)
    }

    open spec fn emit(src: &std::collections::VecDeque<T::Src>) -> Emit {
        seq_emit_checked::<T, C::LengthEncoding, C>(src@)
    }

    open spec fn size_err(src: &std::collections::VecDeque<T::Src>) -> Option<WriteError> {
        seq_size_err::<T, C::LengthEncoding, C>(src@)
    }

    open spec fn write_meta() -> TypeMeta {
        TypeMeta::Dynamic
    }

    open spec fn write_lawful() -> bool {
        T::write_lawful()
    }

    proof fn lemma_emit(src: &std::collections::VecDeque<T::Src>) {
        lemma_seq_emit::<T, C::LengthEncoding, C>(src@);
    }

    fn type_meta() -> (m: TypeMeta) {
        TypeMeta::Dynamic
    }

    fn size_of(src: &std::collections::VecDeque<T::Src>) -> (r: WriteResult<usize>) {
        <VecDeque<T, C::LengthEncoding> as SchemaWrite<C>>::size_of(src)
    }

    fn write<W: Writer>(
        writer: &mut W,
        src: &std::collections::VecDeque<T::Src>,
    ) -> (r: WriteResult<()>)
        ensures
            limit_kept::<C, T::Src>(
                src@.len(),
                old(writer).output(),
                final(writer).output(),
                r,
            ),
    {
        <VecDeque<T, C::LengthEncoding> as SchemaWrite<C>>::write(writer, src)
    }
}

impl<'de, C: Config, T: SchemaRead<'de, C>> SchemaRead<'de, C> for std::collections::VecDeque<T> {
    type Dst = std::collections::VecDeque<T::Dst>;

    open spec fn dst_val(dst: &std::collections::VecDeque<T::Dst>) -> Seq<T::Val> {
        dst_vals::<T, C>(dst@)
    }

    open spec fn dec(inp: Input) -> Result<(Seq<T::Val>, Input), Fault> {
        seq_dec::<T, C::LengthEncoding, C>(inp)
    }

    open spec fn read_meta() -> TypeMeta {
        TypeMeta::Dynamic
    }

    open spec fn read_lawful() -> bool {
        T::read_lawful()
    }

    proof fn lemma_dec(inp: Input) {
        lemma_seq_dec::<T, C::LengthEncoding, C>(inp);
    }

    fn type_meta() -> (m: TypeMeta) {
        TypeMeta::Dynamic
    }

    fn get<R: Reader<'de>>(reader: &mut R) -> (r: ReadResult<std::collections::VecDeque<T::Dst>>) {
        let v = read_seq::<T, C::LengthEncoding, C, R>(reader)?;
        Ok(deque_from_vec(v))
    }
}

impl<'de, C: Config, T: RoundTrip<'de, C>> RoundTrip<'de, C> for std::collections::VecDeque<T> {
    open spec fn round_trips() -> bool {
        seq_round_trips::<T, C>()
    }

    open spec fn src_valid(src: &std::collections::VecDeque<T::Src>) -> bool {
        all_valid::<T, C>(src@)
    }

    open spec fn needs_backing() -> bool {
        T::needs_backing()
    }

    proof fn lemma_round_trip(src: &std::collections::VecDeque<T::Src>, rest: Input) {
        assert(src@.len() == src.len());
        lemma_seq_round_trip::<T, C::LengthEncoding, C>(src@, rest);
    }
}

} // verus!
