//! Characters and strings, in UTF-8.
use crate::config::{Config, ConfigCore};
use crate::error::{
    invalid_char_lead, invalid_utf8_encoding, write_length_encoding_overflow, ReadError,
    ReadResult, WriteError, WriteResult,
};
use crate::io::{write_bytes, Reader, Writer};
use crate::len::{len_dec_checked, len_emit_checked, limit_kept, prealloc_write_error, SeqLen};
use crate::model::{
    lemma_prepend_prepend, lemma_prepend_skip, lemma_skip_follows, lemma_wrote_fail,
    lemma_wrote_first, lemma_wrote_then, Emit, Fault, Input,
};
use crate::schema::context;
use crate::schema::elems::emit_all;
use crate::schema::impls::byte::{byte_dec, lemma_byte_dec, read_byte};
use crate::schema::{
    Model, RoundTrip, SchemaRead, SchemaReadContext, SchemaWrite, TypeMeta,
};
use core::str::Utf8Error;
use vstd::prelude::*;
use vstd::utf8::{
    char_is_scalar, char_u32_cast, codepoint_width_2, codepoint_width_3, codepoint_width_4,
    decode_first_scalar, decode_utf8, encode_scalar, encode_utf8, encode_utf8_decode_utf8,
    encode_utf8_first_scalar, encode_utf8_valid_utf8, is_scalar, pop_first_scalar,
    valid_first_scalar, valid_utf8,
};

verus! {

broadcast use {
    crate::model::lemma_follows_transitive,
    crate::model::lemma_follows_reflexive,
    crate::model::lemma_then_consistent,
};

/// What [`core::str::from_utf8`] reports of `bytes` that are not UTF-8.
pub uninterp spec fn utf8_error(bytes: Seq<u8>) -> Utf8Error;

/// `core::str::from_utf8`: the bytes as a string if they are UTF-8, and otherwise an error that
/// depends on the bytes alone.
pub assume_specification<'a>[ core::str::from_utf8 ](v: &'a [u8]) -> (r: Result<
    &'a str,
    Utf8Error,
>)
    ensures
        match r {
            Ok(s) => valid_utf8(v@) && s@ == decode_utf8(v@),
            Err(e) => !valid_utf8(v@) && e == utf8_error(v@),
        },
;

/// `char::from_u32`: the character with the given number, if there is one.
pub assume_specification[ char::from_u32 ](i: u32) -> (r: Option<char>)
    ensures
        match r {
            Some(c) => c as u32 == i,
            None => !is_scalar(i),
        },
;

/// How many bytes a character takes whose first byte is `b`, unless none starts so.
pub open spec fn char_width(b: u8) -> Option<nat> {
    if b <= 0x7f {
        Some(1)
    } else if 0xc2 <= b <= 0xdf {
        Some(2)
    } else if 0xe0 <= b <= 0xef {
        Some(3)
    } else if 0xf0 <= b <= 0xf4 {
        Some(4)
    } else {
        None
    }
}

/// Reading a character.
pub open spec fn char_dec(inp: Input) -> Result<(char, Input), Fault> {
    match byte_dec(inp) {
        Err(e) => Err(e),
        Ok((b, tail)) => match char_width(b) {
            None => Err(tail.fault(ReadError::InvalidCharLead(b))),
            Some(n) => if tail.bytes.len() < n - 1 {
                Err(
                    tail.fault(
                        ReadError::Io(crate::io::ReadError::ReadSizeLimit((n - 1) as usize)),
                    ),
                )
            } else if valid_utf8(inp.bytes.take(n as int)) {
                Ok((decode_first_scalar(inp.bytes.take(n as int)) as char, inp.skip(n as int)))
            } else {
                Err(
                    inp.skip(n as int).fault(
                        ReadError::InvalidUtf8Encoding(utf8_error(inp.bytes.take(n as int))),
                    ),
                )
            },
        },
    }
}

proof fn lemma_one_scalar(bytes: Seq<u8>)
    requires
        0 < bytes.len(),
        char_width(bytes[0]) == Some(bytes.len()),
    ensures
        valid_utf8(bytes) <==> valid_first_scalar(bytes),
{
    assert(vstd::utf8::length_of_first_codepoint(bytes) == bytes.len());
    assert(pop_first_scalar(bytes) =~= Seq::empty());
    reveal_with_fuel(valid_utf8, 2);
}

proof fn lemma_width_2(b0: u8, b1: u8)
    by (bit_vector)
    requires
        0xc2 <= b0 <= 0xdf,
        0x80 <= b1 <= 0xbf,
    ensures
        0x80 <= codepoint_width_2(b0, b1) < 0x800,
{
}

proof fn lemma_width_3(b0: u8, b1: u8, b2: u8)
    by (bit_vector)
    requires
        0xe0 <= b0 <= 0xef,
        0x80 <= b1 <= 0xbf,
        0x80 <= b2 <= 0xbf,
    ensures
        codepoint_width_3(b0, b1, b2) <= 0xffff,
        (codepoint_width_3(b0, b1, b2) < 0x800) == (b0 == 0xe0 && b1 < 0xa0),
        (0xd800 <= codepoint_width_3(b0, b1, b2) && codepoint_width_3(b0, b1, b2) <= 0xdfff) == (b0
            == 0xed && b1 >= 0xa0),
{
}

proof fn lemma_width_4(b0: u8, b1: u8, b2: u8, b3: u8)
    by (bit_vector)
    requires
        0xf0 <= b0 <= 0xf4,
        0x80 <= b1 <= 0xbf,
        0x80 <= b2 <= 0xbf,
        0x80 <= b3 <= 0xbf,
    ensures
        (codepoint_width_4(b0, b1, b2, b3) < 0x10000) == (b0 == 0xf0 && b1 < 0x90),
        (codepoint_width_4(b0, b1, b2, b3) > 0x10ffff) == (b0 == 0xf4 && b1 > 0x8f),
{
}

/// A byte continues a character exactly if its first two bits are `10`.
fn continues(b: u8) -> (r: bool)
    ensures
        r == (0x80 <= b <= 0xbf),
{
    assert((b & 0xc0u8 == 0x80u8) == (0x80 <= b && b <= 0xbf)) by (bit_vector);
    b & 0xc0 == 0x80
}

/// The error that is reported of bytes that are no character.
fn utf8_failure(buf: &[u8]) -> (e: ReadError)
    requires
        !valid_utf8(buf@),
    ensures
        e == ReadError::InvalidUtf8Encoding(utf8_error(buf@)),
{
    match core::str::from_utf8(buf) {
        Ok(_) => vstd::pervasive::unreached(),
        Err(e) => invalid_utf8_encoding(e),
    }
}

/// Reads `n` more bytes of a character whose first byte is `b`.
fn read_rest<'de, R: Reader<'de>>(reader: &mut R, b: u8, n: usize) -> (r: ReadResult<Vec<u8>>)
    ensures
        final(reader).input().follows(old(reader).input()),
        n > old(reader).input().bytes.len() ==> {
            &&& r is Err
            &&& r->Err_0 == ReadError::Io(crate::io::ReadError::ReadSizeLimit(n))
            &&& final(reader).input() == old(reader).input()
        },
        n <= old(reader).input().bytes.len() ==> {
            &&& r is Ok
            &&& r->Ok_0@ == seq![b] + old(reader).input().bytes.take(n as int)
            &&& final(reader).input() == old(reader).input().skip(n as int)
        },
{
    proof {
        if n <= old(reader).input().bytes.len() {
            lemma_skip_follows(old(reader).input(), n as int);
        }
    }
    let mut tail: Vec<u8> = match reader.take_vec(n) {
        Ok(tail) => tail,
        Err(e) => {
            return Err(ReadError::Io(e));
        },
    };
    let mut buf: Vec<u8> = Vec::new();
    buf.push(b);
    buf.append(&mut tail);
    proof {
        assert(buf@ =~= seq![b] + old(reader).input().bytes.take(n as int));
    }
    Ok(buf)
}

/// Reads a character.
pub fn read_char<'de, R: Reader<'de>>(reader: &mut R) -> (r: ReadResult<char>)
    ensures
        final(reader).input().follows(old(reader).input()),
        match char_dec(old(reader).input()) {
            Ok((c, rest)) => {
                &&& r == Ok::<char, ReadError>(c)
                &&& final(reader).input() == rest
            },
            Err(f) => {
                &&& r == Err::<char, ReadError>(f.err)
                &&& final(reader).input() == f.left
            },
        },
{
    let ghost inp = reader.input();
    let b0: u8 = read_byte(reader)?;
    let ghost tail = reader.input();
    proof {
        lemma_byte_dec(inp);
    }
    if b0 <= 0x7f {
        proof {
            let one = inp.bytes.take(1);
            assert(one[0] == b0);
            lemma_one_scalar(one);
            assert(b0 & 0x7fu8 == b0) by (bit_vector)
                requires
                    b0 <= 0x7fu8,
            ;
        }
        return Ok(b0 as char);
    }
    let n: usize = if 0xc2 <= b0 && b0 <= 0xdf {
        1
    } else if 0xe0 <= b0 && b0 <= 0xef {
        2
    } else if 0xf0 <= b0 && b0 <= 0xf4 {
        3
    } else {
        return Err(invalid_char_lead(b0));
    };
    let buf: Vec<u8> = read_rest(reader, b0, n)?;
    proof {
        assert(buf@ =~= inp.bytes.take(n + 1));
        assert(tail.skip(n as int).bytes =~= inp.skip(n + 1).bytes);
        lemma_one_scalar(buf@);
    }
    let mut i: usize = 1;
    while i <= n
        invariant
            inp == old(reader).input(),
            reader.input().follows(inp),
            reader.input() == inp.skip(n + 1),
            1 <= n <= 3,
            buf@.len() == n + 1,
            buf@ == inp.bytes.take(n + 1),
            inp.bytes.len() >= n + 1,
            buf@[0] == b0,
            char_width(b0) == Some((n + 1) as nat),
            valid_utf8(buf@) <==> valid_first_scalar(buf@),
            1 <= i <= n + 1,
            forall|j: int| 1 <= j < i ==> 0x80 <= #[trigger] buf@[j] <= 0xbf,
        decreases n + 1 - i,
    {
        if !continues(buf[i]) {
            assert(!valid_first_scalar(buf@));
            return Err(utf8_failure(buf.as_slice()));
        }
        i = i + 1;
    }
    let b1: u8 = buf[1];
    let code_point: u32 = if n == 1 {
        proof {
            lemma_width_2(b0, b1);
        }
        ((b0 & 0x1f) as u32) << 6 | ((b1 & 0x3f) as u32)
    } else if n == 2 {
        let b2: u8 = buf[2];
        proof {
            lemma_width_3(b0, b1, b2);
        }
        // Overlong encodings and surrogates.
        if (b0 == 0xe0 && b1 < 0xa0) || (b0 == 0xed && b1 >= 0xa0) {
            return Err(utf8_failure(buf.as_slice()));
        }
        ((b0 & 0x0f) as u32) << 12 | ((b1 & 0x3f) as u32) << 6 | ((b2 & 0x3f) as u32)
    } else {
        let (b2, b3): (u8, u8) = (buf[2], buf[3]);
        proof {
            lemma_width_4(b0, b1, b2, b3);
        }
        // Overlong encodings and numbers beyond the last character.
        if (b0 == 0xf0 && b1 < 0x90) || (b0 == 0xf4 && b1 > 0x8f) {
            return Err(utf8_failure(buf.as_slice()));
        }
        ((b0 & 0x07) as u32) << 18 | ((b1 & 0x3f) as u32) << 12 | ((b2 & 0x3f) as u32) << 6 | ((b3
            & 0x3f) as u32)
    };
    assert(code_point == decode_first_scalar(buf@));
    assert(valid_first_scalar(buf@));
    match char::from_u32(code_point) {
        Some(c) => {
            proof {
                char_u32_cast(c, code_point);
            }
            Ok(c)
        },
        None => Err(ReadError::InvalidUtf8Code(code_point)),
    }
}

/// The bytes of a character.
pub fn char_bytes(c: char) -> (out: Vec<u8>)
    ensures
        out@ == encode_scalar(c as u32),
{
    let v: u32 = c as u32;
    let mut out: Vec<u8> = Vec::new();
    proof {
        char_is_scalar(c);
    }
    if v <= 0x7f {
        out.push((v & 0x7f) as u8);
    } else if v <= 0x7ff {
        out.push(0xc0 | ((v >> 6) & 0x1f) as u8);
        out.push(0x80 | (v & 0x3f) as u8);
    } else if v <= 0xffff {
        out.push(0xe0 | ((v >> 12) & 0x0f) as u8);
        out.push(0x80 | ((v >> 6) & 0x3f) as u8);
        out.push(0x80 | (v & 0x3f) as u8);
    } else {
        out.push(0xf0 | ((v >> 18) & 0x07) as u8);
        out.push(0x80 | ((v >> 12) & 0x3f) as u8);
        out.push(0x80 | ((v >> 6) & 0x3f) as u8);
        out.push(0x80 | (v & 0x3f) as u8);
    }
    proof {
        assert(out@ =~= encode_scalar(v));
    }
    out
}

proof fn lemma_lead_2(v: u32)
    by (bit_vector)
    requires
        0x80 <= v <= 0x7ff,
    ensures
        ({
            let b = vstd::utf8::leading_byte_width_2(v);
            0xc2 <= b && b <= 0xdf
        }),
{
}

proof fn lemma_lead_3(v: u32)
    by (bit_vector)
    requires
        0x800 <= v <= 0xffff,
    ensures
        ({
            let b = vstd::utf8::leading_byte_width_3(v);
            0xe0 <= b && b <= 0xef
        }),
{
}

proof fn lemma_lead_4(v: u32)
    by (bit_vector)
    requires
        0x10000 <= v <= 0x10ffff,
    ensures
        ({
            let b = vstd::utf8::leading_byte_width_4(v);
            0xf0 <= b && b <= 0xf4
        }),
{
}

proof fn lemma_lead_1(v: u32)
    by (bit_vector)
    requires
        v <= 0x7f,
    ensures
        ({
            let b = vstd::utf8::leading_byte_width_1(v);
            b <= 0x7f
        }),
{
}

proof fn lemma_char_round_trip(c: char, rest: Input)
    ensures
        char_dec(rest.prepend(encode_scalar(c as u32))) == Ok::<_, Fault>((c, rest)),
        1 <= encode_scalar(c as u32).len() <= 4,
{
    let v = c as u32;
    let bytes = encode_scalar(v);
    let inp = rest.prepend(bytes);
    char_is_scalar(c);
    if v <= 0x7f {
        lemma_lead_1(v);
    } else if v <= 0x7ff {
        lemma_lead_2(v);
    } else if v <= 0xffff {
        lemma_lead_3(v);
    } else {
        lemma_lead_4(v);
    }
    assert(char_width(bytes[0]) == Some(bytes.len()));
    lemma_prepend_skip(rest, bytes);
    assert(inp.bytes[0] == bytes[0]);
    assert(seq![c].drop_first() =~= Seq::empty());
    assert(encode_utf8(seq![c].drop_first()) =~= Seq::empty());
    assert(encode_utf8(seq![c]) =~= bytes);
    encode_utf8_first_scalar(seq![c]);
    lemma_one_scalar(bytes);
    char_u32_cast(c, v);
}

proof fn lemma_char_dec(inp: Input)
    ensures
        char_dec(inp) matches Err(f) ==> f.left.follows(inp),
        char_dec(inp) matches Ok((c, rest)) ==> rest.follows(inp),
{
    if let Ok((b, tail)) = byte_dec(inp) {
        if let Some(n) = char_width(b) {
            if tail.bytes.len() >= n - 1 {
                lemma_skip_follows(inp, n as int);
            }
        }
    }
}

impl Model for char {
    type Val = char;
}

/// A character takes as many bytes as it does in UTF-8.
impl<C: ConfigCore> SchemaWrite<C> for char {
    type Src = char;

    open spec fn src_val(src: &char) -> char {
        *src
    }

    open spec fn emit(src: &char) -> Emit {
        Emit::done(encode_scalar(*src as u32))
    }

    open spec fn size_err(src: &char) -> Option<WriteError> {
        None
    }

    open spec fn write_meta() -> TypeMeta {
        TypeMeta::Dynamic
    }

    open spec fn write_lawful() -> bool {
        true
    }

    proof fn lemma_emit(src: &char) {
    }

    fn type_meta() -> (m: TypeMeta) {
        TypeMeta::Dynamic
    }

    fn size_of(src: &char) -> (r: WriteResult<usize>) {
        Ok(char_bytes(*src).len())
    }

    fn write<W: Writer>(writer: &mut W, src: &char) -> (r: WriteResult<()>) {
        let bytes = char_bytes(*src);
        write_bytes(writer, bytes.as_slice())
    }
}

impl<'de, C: ConfigCore> SchemaRead<'de, C> for char {
    type Dst = char;

    open spec fn dst_val(dst: &char) -> char {
        *dst
    }

    open spec fn dec(inp: Input) -> Result<(char, Input), Fault> {
        char_dec(inp)
    }

    open spec fn read_meta() -> TypeMeta {
        TypeMeta::Dynamic
    }

    open spec fn read_lawful() -> bool {
        true
    }

    proof fn lemma_dec(inp: Input) {
        lemma_char_dec(inp);
    }

    fn type_meta() -> (m: TypeMeta) {
        TypeMeta::Dynamic
    }

    fn get<R: Reader<'de>>(reader: &mut R) -> (r: ReadResult<char>) {
        read_char(reader)
    }
}

impl<'de, C: ConfigCore> RoundTrip<'de, C> for char {
    open spec fn round_trips() -> bool {
        true
    }

    open spec fn src_valid(src: &char) -> bool {
        true
    }

    open spec fn needs_backing() -> bool {
        false
    }

    proof fn lemma_round_trip(src: &char, rest: Input) {
        lemma_char_round_trip(*src, rest);
    }
}

/// The characters of which the first `n` bytes are the UTF-8.
pub open spec fn text_of(n: nat, inp: Input) -> Result<(Seq<char>, Input), Fault> {
    if inp.bytes.len() < n {
        Err(inp.fault(ReadError::Io(crate::io::ReadError::ReadSizeLimit(n as usize))))
    } else if valid_utf8(inp.bytes.take(n as int)) {
        Ok((decode_utf8(inp.bytes.take(n as int)), inp.skip(n as int)))
    } else {
        Err(
            inp.skip(n as int).fault(
                ReadError::InvalidUtf8Encoding(utf8_error(inp.bytes.take(n as int))),
            ),
        )
    }
}

/// As [`text_of`], in place.
pub open spec fn borrowed_text_of(n: nat, inp: Input) -> Result<(Seq<char>, Input), Fault> {
    if !inp.backing {
        Err(inp.fault(ReadError::Io(crate::io::ReadError::UnsupportedBorrow)))
    } else {
        text_of(n, inp)
    }
}

/// Reading a string, with a check of the memory that it asks for.
pub open spec fn text_dec<Len: SeqLen<C>, C: ConfigCore>(inp: Input) -> Result<
    (Seq<char>, Input),
    Fault,
> {
    match len_dec_checked::<Len, C, u8>(inp) {
        Ok((len, mid)) => text_of(len, mid),
        Err(e) => Err(e),
    }
}

/// Reading a string in place.
pub open spec fn borrowed_text_dec<Len: SeqLen<C>, C: ConfigCore>(inp: Input) -> Result<
    (Seq<char>, Input),
    Fault,
> {
    match Len::len_dec(inp) {
        Ok((len, mid)) => borrowed_text_of(len, mid),
        Err(e) => Err(e),
    }
}

pub proof fn lemma_text_dec<Len: SeqLen<C>, C: ConfigCore>(inp: Input)
    ensures
        text_dec::<Len, C>(inp) matches Err(f) ==> f.left.follows(inp),
        text_dec::<Len, C>(inp) matches Ok((cs, rest)) ==> rest.follows(inp),
        borrowed_text_dec::<Len, C>(inp) matches Err(f) ==> f.left.follows(inp),
        borrowed_text_dec::<Len, C>(inp) matches Ok((cs, rest)) ==> rest.follows(inp),
{
    Len::lemma_len_dec(inp);
    if let Ok((len, mid)) = Len::len_dec(inp) {
        lemma_text_of(len, mid);
    }
}

proof fn lemma_text_of(n: nat, inp: Input)
    ensures
        text_of(n, inp) matches Err(f) ==> f.left.follows(inp),
        text_of(n, inp) matches Ok((cs, rest)) ==> rest.follows(inp),
{
    if inp.bytes.len() >= n {
        lemma_skip_follows(inp, n as int);
    }
}

/// Reading gives back the characters that were written.
proof fn lemma_text_round_trip(cs: Seq<char>, rest: Input)
    ensures
        text_of(encode_utf8(cs).len(), rest.prepend(encode_utf8(cs))) == Ok::<_, Fault>(
            (cs, rest),
        ),
{
    lemma_prepend_skip(rest, encode_utf8(cs));
    encode_utf8_valid_utf8(cs);
    encode_utf8_decode_utf8(cs);
}

/// Reads `n` bytes as a string, in place.
pub fn borrow_text<'de, R: Reader<'de>>(reader: &mut R, n: usize) -> (r: ReadResult<&'de str>)
    ensures
        final(reader).input().follows(old(reader).input()),
        match borrowed_text_of(n as nat, old(reader).input()) {
            Ok((cs, rest)) => {
                &&& r is Ok
                &&& (r->Ok_0)@ == cs
                &&& final(reader).input() == rest
            },
            Err(f) => r is Err && r->Err_0 == f.err && final(reader).input() == f.left,
        },
{
    proof {
        if n <= old(reader).input().bytes.len() {
            lemma_skip_follows(old(reader).input(), n as int);
        }
    }
    let bytes: &'de [u8] = match reader.take_borrowed(n) {
        Ok(bytes) => bytes,
        Err(e) => {
            return Err(ReadError::Io(e));
        },
    };
    match core::str::from_utf8(bytes) {
        Ok(s) => Ok(s),
        Err(e) => Err(invalid_utf8_encoding(e)),
    }
}

/// Reads `n` bytes as a string.
pub fn read_text<'de, R: Reader<'de>>(reader: &mut R, n: usize) -> (r: ReadResult<String>)
    ensures
        final(reader).input().follows(old(reader).input()),
        match text_of(n as nat, old(reader).input()) {
            Ok((cs, rest)) => {
                &&& r is Ok
                &&& (r->Ok_0)@ == cs
                &&& final(reader).input() == rest
            },
            Err(f) => r is Err && r->Err_0 == f.err && final(reader).input() == f.left,
        },
{
    proof {
        if n <= old(reader).input().bytes.len() {
            lemma_skip_follows(old(reader).input(), n as int);
        }
    }
    let bytes: Vec<u8> = match reader.take_vec(n) {
        Ok(bytes) => bytes,
        Err(e) => {
            return Err(ReadError::Io(e));
        },
    };
    match core::str::from_utf8(bytes.as_slice()) {
        Ok(s) => Ok(s.to_owned()),
        Err(e) => Err(invalid_utf8_encoding(e)),
    }
}

/// Bytes are written as they are.
pub proof fn lemma_emit_bytes<C: ConfigCore>(s: Seq<u8>)
    ensures
        emit_all::<u8, C>(s) == Emit::done(s),
    decreases s.len(),
{
    if s.len() == 0 {
        assert(s =~= Seq::empty());
    } else {
        lemma_emit_bytes::<C>(s.drop_last());
        assert(s.drop_last() + seq![s.last()] =~= s);
    }
}

/// Writing a string whose bytes are `bytes`.
pub open spec fn text_emit<Len: SeqLen<C>, C: ConfigCore>(bytes: Seq<u8>) -> Emit {
    Len::len_emit(bytes.len()).then_emit(Emit::done(bytes))
}

/// As [`text_emit`], with a check of the memory that the string asks for on read-back.
pub open spec fn text_emit_checked<Len: SeqLen<C>, C: ConfigCore>(bytes: Seq<u8>) -> Emit {
    len_emit_checked::<Len, C, u8>(bytes.len()).then_emit(Emit::done(bytes))
}

/// The number of bytes of a string whose bytes are `bytes`.
fn size_of_text<Len: SeqLen<C>, C: ConfigCore>(bytes: &[u8]) -> (r: WriteResult<usize>)
    ensures
        text_emit::<Len, C>(bytes@).weight <= usize::MAX ==> match Len::len_emit(bytes@.len()).err {
            Some(e) => r == Err::<usize, WriteError>(e),
            None => r is Ok && r->Ok_0 == text_emit::<Len, C>(bytes@).weight,
        },
{
    let head: usize = Len::write_bytes_needed(bytes.len())?;
    match head.checked_add(bytes.len()) {
        Some(n) => Ok(n),
        None => Err(write_length_encoding_overflow("usize::MAX")),
    }
}

/// Writes a string whose bytes are `bytes`.
fn write_text<Len: SeqLen<C>, C: ConfigCore, W: Writer>(writer: &mut W, bytes: &[u8]) -> (r:
    WriteResult<()>)
    ensures
        text_emit::<Len, C>(bytes@).wrote(old(writer).output(), final(writer).output(), r),
{
    let ghost p0 = writer.output();
    let ghost head = Len::len_emit(bytes@.len());
    let first = Len::write(writer, bytes.len());
    let ghost p1 = writer.output();
    proof {
        Len::lemma_len_emit(bytes@.len());
    }
    match first {
        Ok(()) => {},
        Err(e) => {
            proof {
                lemma_wrote_first(head, Emit::done(bytes@), p0, p1, e);
            }
            return Err(e);
        },
    }
    let second = write_bytes(writer, bytes);
    proof {
        lemma_wrote_then(head, Emit::done(bytes@), p0, p1, writer.output(), second);
    }
    second
}

/// As [`write_text`], after a check that the string can be read back.
pub fn write_text_prealloc_check<Len: SeqLen<C>, C: ConfigCore, W: Writer>(
    writer: &mut W,
    bytes: &[u8],
) -> (r: WriteResult<()>)
    ensures
        limit_kept::<C, u8>(bytes@.len(), old(writer).output(), final(writer).output(), r),
        text_emit_checked::<Len, C>(bytes@).wrote(
            old(writer).output(),
            final(writer).output(),
            r,
        ),
{
    match Len::prealloc_check::<u8>(bytes.len()) {
        Ok(()) => write_text::<Len, C, W>(writer, bytes),
        Err(e) => {
            proof {
                let head = len_emit_checked::<Len, C, u8>(bytes@.len());
                let e = prealloc_write_error::<C, u8>(bytes@.len());
                lemma_wrote_fail(e, head.weight, old(writer).output());
                lemma_wrote_first(
                    head,
                    Emit::done(bytes@),
                    old(writer).output(),
                    old(writer).output(),
                    e,
                );
            }
            Err(e.into_write_error())
        },
    }
}

impl Model for String {
    type Val = Seq<char>;
}

/// A string is its length in bytes and then its bytes.
impl<C: Config> SchemaWrite<C> for String {
    type Src = String;

    open spec fn src_val(src: &String) -> Seq<char> {
        src@
    }

    open spec fn emit(src: &String) -> Emit {
        text_emit_checked::<C::LengthEncoding, C>(encode_utf8(src@))
    }

    open spec fn size_err(src: &String) -> Option<WriteError> {
        C::LengthEncoding::len_emit(encode_utf8(src@).len()).err
    }

    open spec fn write_meta() -> TypeMeta {
        TypeMeta::Dynamic
    }

    open spec fn write_lawful() -> bool {
        true
    }

    proof fn lemma_emit(src: &String) {
        C::LengthEncoding::lemma_len_emit(encode_utf8(src@).len());
    }

    fn type_meta() -> (m: TypeMeta) {
        TypeMeta::Dynamic
    }

    fn size_of(src: &String) -> (r: WriteResult<usize>) {
        size_of_text::<C::LengthEncoding, C>(src.as_str().as_bytes())
    }

    fn write<W: Writer>(writer: &mut W, src: &String) -> (r: WriteResult<()>) {
        write_text_prealloc_check::<C::LengthEncoding, C, W>(writer, src.as_str().as_bytes())
    }
}

impl<'de, C: ConfigCore> SchemaReadContext<'de, C, context::Len> for String {
    type Dst = String;

    open spec fn context_val(dst: &String) -> Seq<char> {
        dst@
    }

    open spec fn context_dec(ctx: context::Len, inp: Input) -> Result<
        (Seq<char>, Input),
        Fault,
    > {
        text_of(ctx.0 as nat, inp)
    }

    open spec fn context_lawful() -> bool {
        true
    }

    fn get_with_context<R: Reader<'de>>(ctx: context::Len, reader: &mut R) -> (r: ReadResult<
        String,
    >) {
        read_text(reader, ctx.0)
    }
}

impl<'de, C: Config> SchemaRead<'de, C> for String {
    type Dst = String;

    open spec fn dst_val(dst: &String) -> Seq<char> {
        dst@
    }

    open spec fn dec(inp: Input) -> Result<(Seq<char>, Input), Fault> {
        text_dec::<C::LengthEncoding, C>(inp)
    }

    open spec fn read_meta() -> TypeMeta {
        TypeMeta::Dynamic
    }

    open spec fn read_lawful() -> bool {
        true
    }

    proof fn lemma_dec(inp: Input) {
        lemma_text_dec::<C::LengthEncoding, C>(inp);
    }

    fn type_meta() -> (m: TypeMeta) {
        TypeMeta::Dynamic
    }

    fn get<R: Reader<'de>>(reader: &mut R) -> (r: ReadResult<String>) {
        let len: usize = C::LengthEncoding::read_prealloc_check::<u8, R>(reader)?;
        read_text(reader, len)
    }
}

impl<'de, C: Config> RoundTrip<'de, C> for String {
    open spec fn round_trips() -> bool {
        true
    }

    open spec fn src_valid(src: &String) -> bool {
        true
    }

    open spec fn needs_backing() -> bool {
        false
    }

    proof fn lemma_round_trip(src: &String, rest: Input) {
        let bytes = encode_utf8(src@);
        lemma_prepend_prepend(rest, C::LengthEncoding::len_emit(bytes.len()).bytes, bytes);
        C::LengthEncoding::lemma_len_round_trip(bytes.len(), rest.prepend(bytes));
        lemma_text_round_trip(src@, rest);
    }
}

impl<'a> Model for &'a str {
    type Val = Seq<char>;
}

/// As a [`String`], without a check of the memory that is asked for: it is read in place.
impl<'a, C: Config> SchemaWrite<C> for &'a str {
    type Src = &'a str;

    open spec fn src_val(src: &&'a str) -> Seq<char> {
        src@
    }

    open spec fn emit(src: &&'a str) -> Emit {
        text_emit::<C::LengthEncoding, C>(encode_utf8(src@))
    }

    open spec fn size_err(src: &&'a str) -> Option<WriteError> {
        C::LengthEncoding::len_emit(encode_utf8(src@).len()).err
    }

    open spec fn write_meta() -> TypeMeta {
        TypeMeta::Dynamic
    }

    open spec fn write_lawful() -> bool {
        true
    }

    proof fn lemma_emit(src: &&'a str) {
        C::LengthEncoding::lemma_len_emit(encode_utf8(src@).len());
    }

    fn type_meta() -> (m: TypeMeta) {
        TypeMeta::Dynamic
    }

    fn size_of(src: &&'a str) -> (r: WriteResult<usize>) {
        size_of_text::<C::LengthEncoding, C>(src.as_bytes())
    }

    fn write<W: Writer>(writer: &mut W, src: &&'a str) -> (r: WriteResult<()>) {
        write_text::<C::LengthEncoding, C, W>(writer, src.as_bytes())
    }
}

impl<'de, C: ConfigCore> SchemaReadContext<'de, C, context::Len> for &'de str {
    type Dst = &'de str;

    open spec fn context_val(dst: &&'de str) -> Seq<char> {
        dst@
    }

    open spec fn context_dec(ctx: context::Len, inp: Input) -> Result<
        (Seq<char>, Input),
        Fault,
    > {
        borrowed_text_of(ctx.0 as nat, inp)
    }

    open spec fn context_lawful() -> bool {
        true
    }

    fn get_with_context<R: Reader<'de>>(ctx: context::Len, reader: &mut R) -> (r: ReadResult<
        &'de str,
    >) {
        borrow_text(reader, ctx.0)
    }
}

impl<'de, C: Config> SchemaRead<'de, C> for &'de str {
    type Dst = &'de str;

    open spec fn dst_val(dst: &&'de str) -> Seq<char> {
        dst@
    }

    open spec fn dec(inp: Input) -> Result<(Seq<char>, Input), Fault> {
        borrowed_text_dec::<C::LengthEncoding, C>(inp)
    }

    open spec fn read_meta() -> TypeMeta {
        TypeMeta::Dynamic
    }

    open spec fn read_lawful() -> bool {
        true
    }

    proof fn lemma_dec(inp: Input) {
        lemma_text_dec::<C::LengthEncoding, C>(inp);
    }

    fn type_meta() -> (m: TypeMeta) {
        TypeMeta::Dynamic
    }

    fn get<R: Reader<'de>>(reader: &mut R) -> (r: ReadResult<&'de str>) {
        let len: usize = C::LengthEncoding::read(reader)?;
        borrow_text(reader, len)
    }
}

/// Text that was written is given back in place.
pub proof fn lemma_borrowed_text_round_trip<C: Config>(cs: Seq<char>, rest: Input)
    requires
        rest.backing,
        text_emit::<C::LengthEncoding, C>(encode_utf8(cs)).ok(),
        text_emit::<C::LengthEncoding, C>(encode_utf8(cs)).weight <= usize::MAX,
    ensures
        borrowed_text_dec::<C::LengthEncoding, C>(
            rest.prepend(text_emit::<C::LengthEncoding, C>(encode_utf8(cs)).bytes),
        ) == Ok::<_, Fault>((cs, rest)),
{
    let bytes = encode_utf8(cs);
    lemma_prepend_prepend(rest, C::LengthEncoding::len_emit(bytes.len()).bytes, bytes);
    C::LengthEncoding::lemma_len_emit(bytes.len());
    C::LengthEncoding::lemma_len_round_trip(bytes.len(), rest.prepend(bytes));
    lemma_text_round_trip(cs, rest);
}

impl<'de, C: Config> RoundTrip<'de, C> for &'de str {
    open spec fn round_trips() -> bool {
        true
    }

    open spec fn src_valid(src: &&'de str) -> bool {
        true
    }

    open spec fn needs_backing() -> bool {
        true
    }

    proof fn lemma_round_trip(src: &&'de str, rest: Input) {
        lemma_borrowed_text_round_trip::<C>(src@, rest);
    }
}

} // verus!
