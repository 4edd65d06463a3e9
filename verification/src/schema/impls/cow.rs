//! Values that are read in place where the reader lends out its bytes, and into memory elsewhere.
use crate::config::{Config, ConfigCore};
use crate::error::{ReadError, ReadResult, WriteError, WriteResult};
use crate::io::{Reader, Writer};
use crate::len::SeqLen;
use crate::model::{lemma_prepend_prepend, lemma_prepend_skip, Emit, Fault, Input};
use crate::schema::containers::decode::{dec_window, decode_vec, dst_vals};
use crate::schema::containers::seq::{lemma_seq_dec, read_seq, seq_dec};
use crate::schema::context;
use crate::schema::elems::{lemma_emit_all, seq_emit, seq_size_err};
use crate::schema::impls::text::{
    borrow_text, borrowed_text_dec, lemma_borrowed_text_round_trip, lemma_emit_bytes, lemma_text_dec, read_text,
    text_dec, text_emit,
};
use crate::schema::zero_copy::{
    borrow_bytes, borrow_dec, borrowed_bytes_dec, lemma_borrowed_bytes_dec,
};
use crate::schema::{Model, RoundTrip, SchemaRead, SchemaReadContext, SchemaWrite, TypeMeta};
use std::borrow::Cow;
use vstd::prelude::*;
use vstd::utf8::encode_utf8;

verus! {

broadcast use {
    crate::model::lemma_follows_transitive,
    crate::model::lemma_follows_reflexive,
};

/// The text of `s`, wherever it stands.
fn text<'b, 'a>(s: &'b Cow<'a, str>) -> (r: &'b str)
    ensures
        r@ == s@,
{
    match s {
        Cow::Borrowed(b) => b,
        Cow::Owned(o) => o.as_str(),
    }
}

/// The bytes of `s`, wherever they stand.
fn bytes<'b, 'a>(s: &'b Cow<'a, [u8]>) -> (r: &'b [u8])
    ensures
        r@ == s@,
{
    match s {
        Cow::Borrowed(b) => b,
        Cow::Owned(o) => o.as_slice(),
    }
}

/// Reads text, in place if the reader lends out its bytes.
pub fn read_cow_str<'de, C: Config, R: Reader<'de>>(reader: &mut R) -> (r: ReadResult<
    Cow<'de, str>,
>)
    ensures
        final(reader).input().follows(old(reader).input()),
        match (if old(reader).input().backing {
            borrowed_text_dec::<C::LengthEncoding, C>(old(reader).input())
        } else {
            text_dec::<C::LengthEncoding, C>(old(reader).input())
        }) {
            Ok((v, rest)) => {
                &&& r is Ok
                &&& (r->Ok_0)@ == v
                &&& r->Ok_0 is Borrowed <==> old(reader).input().backing
                &&& final(reader).input() == rest
            },
            Err(f) => r is Err && r->Err_0 == f.err && final(reader).input() == f.left,
        },
{
    if reader.supports_borrow() {
        let len: usize = C::LengthEncoding::read(reader)?;
        let s: &'de str = borrow_text(reader, len)?;
        Ok(Cow::Borrowed(s))
    } else {
        let len: usize = C::LengthEncoding::read_prealloc_check::<u8, R>(reader)?;
        let s: String = read_text(reader, len)?;
        Ok(Cow::Owned(s))
    }
}

/// Reads bytes, in place if the reader lends them out.
pub fn read_cow_bytes<'de, C: Config, R: Reader<'de>>(reader: &mut R) -> (r: ReadResult<
    Cow<'de, [u8]>,
>)
    ensures
        final(reader).input().follows(old(reader).input()),
        match (if old(reader).input().backing {
            borrowed_bytes_dec::<C::LengthEncoding, C>(old(reader).input())
        } else {
            seq_dec::<u8, C::LengthEncoding, C>(old(reader).input())
        }) {
            Ok((v, rest)) => {
                &&& r is Ok
                &&& (r->Ok_0)@ == v
                &&& r->Ok_0 is Borrowed <==> old(reader).input().backing
                &&& final(reader).input() == rest
            },
            Err(f) => r is Err && r->Err_0 == f.err && final(reader).input() == f.left,
        },
{
    if reader.supports_borrow() {
        let len: usize = C::LengthEncoding::read(reader)?;
        let s: &'de [u8] = borrow_bytes(reader, len)?;
        Ok(Cow::Borrowed(s))
    } else {
        let v: Vec<u8> = read_seq::<u8, C::LengthEncoding, C, R>(reader)?;
        proof {
            assert(dst_vals::<u8, C>(v@) =~= v@);
        }
        Ok(Cow::Owned(v))
    }
}

impl<'a> Model for Cow<'a, str> {
    type Val = Seq<char>;
}

/// Text is laid out as a string slice.
impl<'a, C: Config> SchemaWrite<C> for Cow<'a, str> {
    type Src = Cow<'a, str>;

    open spec fn src_val(src: &Cow<'a, str>) -> Seq<char> {
        src@
    }

    open spec fn emit(src: &Cow<'a, str>) -> Emit {
        text_emit::<C::LengthEncoding, C>(encode_utf8(src@))
    }

    open spec fn size_err(src: &Cow<'a, str>) -> Option<WriteError> {
        C::LengthEncoding::len_emit(encode_utf8(src@).len()).err
    }

    open spec fn write_meta() -> TypeMeta {
        TypeMeta::Dynamic
    }

    open spec fn write_lawful() -> bool {
        true
    }

    proof fn lemma_emit(src: &Cow<'a, str>) {
        C::LengthEncoding::lemma_len_emit(encode_utf8(src@).len());
    }

    fn type_meta() -> (m: TypeMeta) {
        TypeMeta::Dynamic
    }

    fn size_of(src: &Cow<'a, str>) -> (r: WriteResult<usize>) {
        <&str as SchemaWrite<C>>::size_of(&text(src))
    }

    fn write<W: Writer>(writer: &mut W, src: &Cow<'a, str>) -> (r: WriteResult<()>) {
        <&str as SchemaWrite<C>>::write(writer, &text(src))
    }
}

impl<'de, C: Config> SchemaRead<'de, C> for Cow<'de, str> {
    type Dst = Cow<'de, str>;

    open spec fn dst_val(dst: &Cow<'de, str>) -> Seq<char> {
        dst@
    }

    open spec fn dec(inp: Input) -> Result<(Seq<char>, Input), Fault> {
        if inp.backing {
            borrowed_text_dec::<C::LengthEncoding, C>(inp)
        } else {
            text_dec::<C::LengthEncoding, C>(inp)
        }
    }

    open spec fn read_meta() -> TypeMeta {
        TypeMeta::Dynamic
    }

    open spec fn read_lawful() -> bool {
        true
    }

    proof fn lemma_dec(inp: Input) {
        lemma_text_dec::<C::LengthEncoding, C>(inp);
    }

    fn type_meta() -> (m: TypeMeta) {
        TypeMeta::Dynamic
    }

    fn get<R: Reader<'de>>(reader: &mut R) -> (r: ReadResult<Cow<'de, str>>) {
        read_cow_str::<C, R>(reader)
    }
}

/// What is read in place needs no check of the memory that it asks for. Written text is therefore
/// read back wherever the reader lends out its bytes.
impl<'de, C: Config> RoundTrip<'de, C> for Cow<'de, str> {
    open spec fn round_trips() -> bool {
        true
    }

    open spec fn src_valid(src: &Cow<'de, str>) -> bool {
        true
    }

    open spec fn needs_backing() -> bool {
        true
    }

    proof fn lemma_round_trip(src: &Cow<'de, str>, rest: Input) {
        lemma_borrowed_text_round_trip::<C>(src@, rest);
    }
}

impl<'a> Model for Cow<'a, [u8]> {
    type Val = Seq<u8>;
}

/// Bytes are laid out as a slice.
impl<'a, C: Config> SchemaWrite<C> for Cow<'a, [u8]> {
    type Src = Cow<'a, [u8]>;

    open spec fn src_val(src: &Cow<'a, [u8]>) -> Seq<u8> {
        src@
    }

    open spec fn emit(src: &Cow<'a, [u8]>) -> Emit {
        seq_emit::<u8, C::LengthEncoding, C>(src@)
    }

    open spec fn size_err(src: &Cow<'a, [u8]>) -> Option<WriteError> {
        seq_size_err::<u8, C::LengthEncoding, C>(src@)
    }

    open spec fn write_meta() -> TypeMeta {
        TypeMeta::Dynamic
    }

    open spec fn write_lawful() -> bool {
        true
    }

    proof fn lemma_emit(src: &Cow<'a, [u8]>) {
        C::LengthEncoding::lemma_len_emit(src@.len());
        lemma_emit_all::<u8, C>(src@);
    }

    fn type_meta() -> (m: TypeMeta) {
        TypeMeta::Dynamic
    }

    fn size_of(src: &Cow<'a, [u8]>) -> (r: WriteResult<usize>) {
        <&[u8] as SchemaWrite<C>>::size_of(&bytes(src))
    }

    fn write<W: Writer>(writer: &mut W, src: &Cow<'a, [u8]>) -> (r: WriteResult<()>) {
        <&[u8] as SchemaWrite<C>>::write(writer, &bytes(src))
    }
}

impl<'de, C: Config> SchemaRead<'de, C> for Cow<'de, [u8]> {
    type Dst = Cow<'de, [u8]>;

    open spec fn dst_val(dst: &Cow<'de, [u8]>) -> Seq<u8> {
        dst@
    }

    open spec fn dec(inp: Input) -> Result<(Seq<u8>, Input), Fault> {
        if inp.backing {
            borrowed_bytes_dec::<C::LengthEncoding, C>(inp)
        } else {
            seq_dec::<u8, C::LengthEncoding, C>(inp)
        }
    }

    open spec fn read_meta() -> TypeMeta {
        TypeMeta::Dynamic
    }

    open spec fn read_lawful() -> bool {
        true
    }

    proof fn lemma_dec(inp: Input) {
        lemma_borrowed_bytes_dec::<C::LengthEncoding, C>(inp);
        lemma_seq_dec::<u8, C::LengthEncoding, C>(inp);
    }

    fn type_meta() -> (m: TypeMeta) {
        TypeMeta::Dynamic
    }

    fn get<R: Reader<'de>>(reader: &mut R) -> (r: ReadResult<Cow<'de, [u8]>>) {
        read_cow_bytes::<C, R>(reader)
    }
}

/// As with text, what was written is read back wherever the reader lends out its bytes.
impl<'de, C: Config> RoundTrip<'de, C> for Cow<'de, [u8]> {
    open spec fn round_trips() -> bool {
        true
    }

    open spec fn src_valid(src: &Cow<'de, [u8]>) -> bool {
        true
    }

    open spec fn needs_backing() -> bool {
        true
    }

    proof fn lemma_round_trip(src: &Cow<'de, [u8]>, rest: Input) {
        let bytes = src@;
        lemma_emit_bytes::<C>(bytes);
        lemma_prepend_prepend(rest, C::LengthEncoding::len_emit(bytes.len()).bytes, bytes);
        C::LengthEncoding::lemma_len_round_trip(bytes.len(), rest.prepend(bytes));
        lemma_prepend_skip(rest, bytes);
    }
}

impl<'de, C: ConfigCore> SchemaReadContext<'de, C, context::Len> for Cow<'de, [u8]> {
    type Dst = Cow<'de, [u8]>;

    open spec fn context_val(dst: &Cow<'de, [u8]>) -> Seq<u8> {
        dst@
    }

    open spec fn context_dec(ctx: context::Len, inp: Input) -> Result<
        (Seq<u8>, Input),
        Fault,
    > {
        if inp.backing {
            borrow_dec(ctx.0 as nat, inp)
        } else {
            dec_window::<u8, C>(ctx.0 as nat, inp)
        }
    }

    open spec fn context_lawful() -> bool {
        true
    }

    fn get_with_context<R: Reader<'de>>(ctx: context::Len, reader: &mut R) -> (r: ReadResult<
        Cow<'de, [u8]>,
    >) {
        if reader.supports_borrow() {
            let s: &'de [u8] = borrow_bytes(reader, ctx.0)?;
            Ok(Cow::Borrowed(s))
        } else {
            let v: Vec<u8> = decode_vec::<u8, C, R>(reader, ctx.0)?;
            proof {
                assert(dst_vals::<u8, C>(v@) =~= v@);
            }
            Ok(Cow::Owned(v))
        }
    }
}

} // verus!
