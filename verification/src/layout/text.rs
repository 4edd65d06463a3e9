//! What the bytes of characters and strings are.
use crate::config::{Config, ConfigCore};
use crate::error::ReadError;
use crate::len::{prealloc_ok, prealloc_read_error, prealloc_write_error, SeqLen};
use crate::model::{Fault, Input};
use crate::schema::borrowed_slices::lemma_byte_vals;
use crate::schema::context;
use crate::schema::impls::text::{char_width, lemma_emit_bytes, utf8_error};
use crate::schema::{RoundTrip, SchemaRead, SchemaReadContext, SchemaWrite};
use std::borrow::Cow;
use vstd::prelude::*;
use vstd::utf8::{
    decode_first_scalar, decode_utf8, encode_scalar, encode_utf8, pop_first_scalar, valid_utf8,
};

verus! {

/// A character is laid out as in UTF-8, under every configuration.
pub proof fn law_char_is_its_utf8<'de, C: ConfigCore>(c: char)
    ensures
        <char as SchemaWrite<C>>::emit(&c).err is None,
        <char as SchemaWrite<C>>::emit(&c).bytes == encode_utf8(seq![c]),
        <char as SchemaRead<'de, C>>::dst_val(&c) == c,
        <char as SchemaWrite<C>>::src_val(&c) == c,
        <char as SchemaWrite<C>>::size_err(&c) is None,
        <char as SchemaWrite<C>>::write_lawful(),
        <char as SchemaRead<'de, C>>::read_lawful(),
        <char as RoundTrip<'de, C>>::round_trips(),
        <char as RoundTrip<'de, C>>::src_valid(&c),
        !<char as RoundTrip<'de, C>>::needs_backing(),
        <char as SchemaWrite<C>>::write_meta() is Dynamic,
        <char as SchemaRead<'de, C>>::read_meta() is Dynamic,
{
    assert(seq![c].drop_first() =~= Seq::empty());
    reveal_with_fuel(encode_utf8, 2);
    assert(encode_utf8(seq![c]) =~= encode_scalar(c as u32));
}

/// How a character is read: by its first byte, which tells how many follow. What comes of it is the
/// one character of which these are the UTF-8.
pub proof fn law_char_reads<'de, C: ConfigCore>(inp: Input)
    ensures
        inp.bytes.len() == 0 ==> <char as SchemaRead<'de, C>>::dec(inp) == Err::<
            (char, Input),
            Fault,
        >((Fault { err: ReadError::Io(crate::io::ReadError::ReadSizeLimit(1)), left: inp })),
        inp.bytes.len() > 0 ==> {
            let b = inp.bytes[0];
            let n: int = if b <= 0x7f {
                1
            } else if b <= 0xdf {
                2
            } else if b <= 0xef {
                3
            } else {
                4
            };
            let tail = Input { bytes: inp.bytes.skip(1), backing: inp.backing };
            let rest = Input { bytes: inp.bytes.skip(n), backing: inp.backing };
            let r = <char as SchemaRead<'de, C>>::dec(inp);
            &&& 0x80 <= b <= 0xc1 || b >= 0xf5 ==> r == Err::<(char, Input), Fault>(
                (Fault { err: ReadError::InvalidCharLead(b), left: tail }),
            )
            &&& (b <= 0x7f || 0xc2 <= b <= 0xf4) && inp.bytes.len() < n ==> r == Err::<
                (char, Input),
                Fault,
            >(
                (Fault {
                    err: ReadError::Io(crate::io::ReadError::ReadSizeLimit((n - 1) as usize)),
                    left: tail,
                }),
            )
            &&& (b <= 0x7f || 0xc2 <= b <= 0xf4) && inp.bytes.len() >= n && !valid_utf8(
                inp.bytes.take(n),
            ) ==> r == Err::<(char, Input), Fault>(
                (Fault {
                    err: ReadError::InvalidUtf8Encoding(utf8_error(inp.bytes.take(n))),
                    left: rest,
                }),
            )
            &&& (b <= 0x7f || 0xc2 <= b <= 0xf4) && inp.bytes.len() >= n && valid_utf8(
                inp.bytes.take(n),
            ) ==> r is Ok && r->Ok_0.1 == rest && decode_utf8(inp.bytes.take(n)) == seq![r->Ok_0.0]
        },
{
    if inp.bytes.len() > 0 {
        let b = inp.bytes[0];
        if let Some(n) = char_width(b) {
            if inp.bytes.len() >= n {
                let s = inp.bytes.take(n as int);
                assert(vstd::utf8::length_of_first_codepoint(s) == n);
                assert(pop_first_scalar(s) =~= Seq::empty());
                reveal_with_fuel(valid_utf8, 2);
                reveal_with_fuel(decode_utf8, 2);
                assert(valid_utf8(s) ==> decode_utf8(s) =~= seq![decode_first_scalar(s) as char]);
            }
        }
    }
}

/// `String` is laid out as the number of its UTF-8 bytes in the length encoding of the configuration,
/// and then those bytes: as a vector of them is, and is refused where that is.
pub proof fn law_string_is_its_utf8<'de, C: Config>(s: String, v: Vec<u8>)
    requires
        v@ == encode_utf8(s@),
    ensures
        prealloc_ok::<C, u8>(v@.len()) && C::LengthEncoding::len_emit(v@.len()).err is None ==> {
            &&& <String as SchemaWrite<C>>::emit(&s).err is None
            &&& <String as SchemaWrite<C>>::emit(&s).bytes
                == C::LengthEncoding::len_emit(v@.len()).bytes + encode_utf8(s@)
        },
        prealloc_ok::<C, u8>(v@.len())
            ==> (C::LengthEncoding::len_emit(v@.len()).err matches Some(e)
            ==> <String as SchemaWrite<C>>::emit(&s).err == Some(e)),
        !prealloc_ok::<C, u8>(v@.len()) ==> <String as SchemaWrite<C>>::emit(&s).err == Some(
            prealloc_write_error::<C, u8>(v@.len()),
        ) && <String as SchemaWrite<C>>::emit(&s).bytes.len() == 0,
        <String as SchemaWrite<C>>::emit(&s) == <Vec<u8> as SchemaWrite<C>>::emit(&v),
        <String as SchemaRead<'de, C>>::dst_val(&s) == s@,
        <String as SchemaWrite<C>>::src_val(&s) == s@,
        <String as SchemaWrite<C>>::size_err(&s) == C::LengthEncoding::len_emit(v@.len()).err,
        <String as SchemaWrite<C>>::write_lawful(),
        <String as SchemaRead<'de, C>>::read_lawful(),
        <String as RoundTrip<'de, C>>::round_trips(),
        <String as RoundTrip<'de, C>>::src_valid(&s),
        <String as RoundTrip<'de, C>>::needs_backing() == false,
        <String as SchemaWrite<C>>::write_meta() is Dynamic,
        <String as SchemaRead<'de, C>>::read_meta() is Dynamic,
{
    lemma_emit_bytes::<C>(v@);
    C::LengthEncoding::lemma_len_emit(v@.len());
}

/// How `String` is read: a length, checked for the memory that it asks for, and as many bytes, which have
/// to be UTF-8. With the length known, the rest is the same.
pub proof fn law_string_reads<'de, C: Config>(inp: Input)
    ensures
        <String as SchemaRead<'de, C>>::dec(inp) == match C::LengthEncoding::len_dec(inp) {
            Ok((n, mid)) => if !prealloc_ok::<C, u8>(n) {
                Err::<(Seq<char>, Input), Fault>(
                    (Fault { err: prealloc_read_error::<C, u8>(n), left: mid }),
                )
            } else if mid.bytes.len() < n {
                Err((Fault {
                    err: ReadError::Io(crate::io::ReadError::ReadSizeLimit(n as usize)),
                    left: mid,
                }))
            } else if valid_utf8(mid.bytes.take(n as int)) {
                Ok(
                    (
                        decode_utf8(mid.bytes.take(n as int)),
                        Input { bytes: mid.bytes.skip(n as int), backing: mid.backing },
                    ),
                )
            } else {
                Err((Fault {
                    err: ReadError::InvalidUtf8Encoding(utf8_error(mid.bytes.take(n as int))),
                    left: Input { bytes: mid.bytes.skip(n as int), backing: mid.backing },
                }))
            },
            Err(f) => Err(f),
        },
        C::LengthEncoding::len_dec(inp) matches Ok((n, mid)) ==> prealloc_ok::<C, u8>(n)
            ==> <String as SchemaRead<'de, C>>::dec(inp)
                == <String as SchemaReadContext<'de, C, context::Len>>::context_dec(
            context::Len(n as usize),
            mid,
        ),
        <String as SchemaReadContext<'de, C, context::Len>>::context_lawful(),
{
    C::LengthEncoding::lemma_len_dec(inp);
}

/// `&str` is laid out as the number of its UTF-8 bytes in the length encoding of the configuration,
/// and then those bytes: as a vector of them is, whatever memory that would ask for.
pub proof fn law_str_is_its_utf8<'de, C: Config>(s: &'de str, v: Vec<u8>)
    requires
        v@ == encode_utf8(s@),
    ensures
        C::LengthEncoding::len_emit(v@.len()).err is None ==> {
            &&& <&'de str as SchemaWrite<C>>::emit(&s).err is None
            &&& <&'de str as SchemaWrite<C>>::emit(&s).bytes
                == C::LengthEncoding::len_emit(v@.len()).bytes + encode_utf8(s@)
        },
        (C::LengthEncoding::len_emit(v@.len()).err matches Some(e)
            ==> <&'de str as SchemaWrite<C>>::emit(&s).err == Some(e)),
        prealloc_ok::<C, u8>(v@.len())
            ==> <&'de str as SchemaWrite<C>>::emit(&s) == <Vec<u8> as SchemaWrite<C>>::emit(&v),
        <&'de str as SchemaRead<'de, C>>::dst_val(&s) == s@,
        <&'de str as SchemaWrite<C>>::src_val(&s) == s@,
        <&'de str as SchemaWrite<C>>::size_err(&s) == C::LengthEncoding::len_emit(v@.len()).err,
        <&'de str as SchemaWrite<C>>::write_lawful(),
        <&'de str as SchemaRead<'de, C>>::read_lawful(),
        <&'de str as RoundTrip<'de, C>>::round_trips(),
        <&'de str as RoundTrip<'de, C>>::src_valid(&s),
        <&'de str as RoundTrip<'de, C>>::needs_backing() == true,
        <&'de str as SchemaWrite<C>>::write_meta() is Dynamic,
        <&'de str as SchemaRead<'de, C>>::read_meta() is Dynamic,
{
    lemma_emit_bytes::<C>(v@);
    C::LengthEncoding::lemma_len_emit(v@.len());
}

/// How `&str` is read: a length and as many bytes in place, which have
/// to be UTF-8. With the length known, the rest is the same.
pub proof fn law_str_reads<'de, C: Config>(inp: Input)
    ensures
        <&'de str as SchemaRead<'de, C>>::dec(inp) == match C::LengthEncoding::len_dec(inp) {
            Ok((n, mid)) => if !mid.backing {
                Err::<(Seq<char>, Input), Fault>(
                    (Fault {
                        err: ReadError::Io(crate::io::ReadError::UnsupportedBorrow),
                        left: mid,
                    }),
                )
            } else if mid.bytes.len() < n {
                Err((Fault {
                    err: ReadError::Io(crate::io::ReadError::ReadSizeLimit(n as usize)),
                    left: mid,
                }))
            } else if valid_utf8(mid.bytes.take(n as int)) {
                Ok(
                    (
                        decode_utf8(mid.bytes.take(n as int)),
                        Input { bytes: mid.bytes.skip(n as int), backing: mid.backing },
                    ),
                )
            } else {
                Err((Fault {
                    err: ReadError::InvalidUtf8Encoding(utf8_error(mid.bytes.take(n as int))),
                    left: Input { bytes: mid.bytes.skip(n as int), backing: mid.backing },
                }))
            },
            Err(f) => Err(f),
        },
        C::LengthEncoding::len_dec(inp) matches Ok((n, mid))
            ==> <&'de str as SchemaRead<'de, C>>::dec(inp)
                == <&'de str as SchemaReadContext<'de, C, context::Len>>::context_dec(
            context::Len(n as usize),
            mid,
        ),
        <&'de str as SchemaReadContext<'de, C, context::Len>>::context_lawful(),
{
    C::LengthEncoding::lemma_len_dec(inp);
}

/// Text or bytes that may be borrowed or owned are laid out as the borrowed are, and read in place
/// exactly if the input lends out its bytes.
pub proof fn law_cow_is_either<'de, C: Config>(
    t: Cow<'de, str>,
    s: &'de str,
    b: Cow<'de, [u8]>,
    v: Vec<u8>,
    inp: Input,
)
    requires
        t@ == s@,
        b@ == v@,
    ensures
        <Cow<'de, str> as SchemaWrite<C>>::emit(&t) == <&'de str as SchemaWrite<C>>::emit(&s),
        <Cow<'de, str> as SchemaWrite<C>>::size_err(&t) == <&'de str as SchemaWrite<C>>::size_err(
            &s,
        ),
        inp.backing ==> <Cow<'de, str> as SchemaRead<'de, C>>::dec(inp)
            == <&'de str as SchemaRead<'de, C>>::dec(inp),
        !inp.backing ==> <Cow<'de, str> as SchemaRead<'de, C>>::dec(inp)
            == <String as SchemaRead<'de, C>>::dec(inp),
        <Cow<'de, str> as SchemaRead<'de, C>>::dst_val(&t) == t@,
        <Cow<'de, str> as SchemaWrite<C>>::src_val(&t) == t@,
        <Cow<'de, str> as SchemaWrite<C>>::write_lawful(),
        <Cow<'de, str> as SchemaRead<'de, C>>::read_lawful(),
        <Cow<'de, str> as RoundTrip<'de, C>>::round_trips(),
        <Cow<'de, str> as RoundTrip<'de, C>>::src_valid(&t),
        prealloc_ok::<C, u8>(v@.len()) ==> <Cow<'de, [u8]> as SchemaWrite<C>>::emit(&b)
            == <Vec<u8> as SchemaWrite<C>>::emit(&v),
        C::LengthEncoding::len_emit(v@.len()).err is None ==> {
            &&& <Cow<'de, [u8]> as SchemaWrite<C>>::emit(&b).err is None
            &&& <Cow<'de, [u8]> as SchemaWrite<C>>::emit(&b).bytes
                == C::LengthEncoding::len_emit(v@.len()).bytes + v@
        },
        inp.backing ==> <Cow<'de, [u8]> as SchemaRead<'de, C>>::dec(inp)
            == <&'de [u8] as SchemaRead<'de, C>>::dec(inp),
        !inp.backing ==> <Cow<'de, [u8]> as SchemaRead<'de, C>>::dec(inp)
            == <Vec<u8> as SchemaRead<'de, C>>::dec(inp),
        <Cow<'de, [u8]> as SchemaRead<'de, C>>::dst_val(&b) == b@,
        <Cow<'de, [u8]> as SchemaWrite<C>>::src_val(&b) == b@,
        <Cow<'de, [u8]> as SchemaWrite<C>>::write_lawful(),
        <Cow<'de, [u8]> as SchemaRead<'de, C>>::read_lawful(),
        <Cow<'de, [u8]> as RoundTrip<'de, C>>::round_trips(),
        <Cow<'de, [u8]> as RoundTrip<'de, C>>::src_valid(&b),
        <Cow<'de, str> as SchemaRead<'de, C>>::read_meta() is Dynamic,
        <Cow<'de, [u8]> as SchemaRead<'de, C>>::read_meta() is Dynamic,
        <Cow<'de, str> as SchemaWrite<C>>::write_meta() is Dynamic,
        <Cow<'de, [u8]> as SchemaWrite<C>>::write_meta() is Dynamic,
{
    lemma_emit_bytes::<C>(v@);
    C::LengthEncoding::lemma_len_emit(v@.len());
    C::LengthEncoding::lemma_len_dec(inp);
    if let Ok((n, mid)) = C::LengthEncoding::len_dec(inp) {
        assert(n * 1 == n);
        if n <= mid.bytes.len() {
            lemma_byte_vals(mid.bytes.take(n as int));
        }
    }
}

/// Text and bytes of a known length are as many bytes of the input: read in place if it lends them
/// out and that is asked for, and otherwise into memory. Text has to be UTF-8.
pub proof fn law_text_of_a_known_length<'de, C: Config>(
    n: usize,
    s: String,
    t: &'de str,
    b: Cow<'de, [u8]>,
    inp: Input,
)
    ensures
        inp.bytes.len() < n ==> <String as SchemaReadContext<'de, C, context::Len>>::context_dec(
            context::Len(n),
            inp,
        ) == Err::<(Seq<char>, Input), Fault>(
            (Fault { err: ReadError::Io(crate::io::ReadError::ReadSizeLimit(n)), left: inp }),
        ),
        inp.bytes.len() >= n && valid_utf8(inp.bytes.take(n as int))
            ==> <String as SchemaReadContext<
            'de,
            C,
            context::Len,
        >>::context_dec(context::Len(n), inp) == Ok::<(Seq<char>, Input), Fault>(
            (
                decode_utf8(inp.bytes.take(n as int)),
                Input { bytes: inp.bytes.skip(n as int), backing: inp.backing },
            ),
        ),
        inp.bytes.len() >= n && !valid_utf8(inp.bytes.take(n as int))
            ==> <String as SchemaReadContext<'de, C, context::Len>>::context_dec(
            context::Len(n),
            inp,
        ) == Err::<(Seq<char>, Input), Fault>(
            (Fault {
                err: ReadError::InvalidUtf8Encoding(utf8_error(inp.bytes.take(n as int))),
                left: Input { bytes: inp.bytes.skip(n as int), backing: inp.backing },
            }),
        ),
        inp.backing ==> <&'de str as SchemaReadContext<'de, C, context::Len>>::context_dec(
            context::Len(n),
            inp,
        ) == <String as SchemaReadContext<'de, C, context::Len>>::context_dec(context::Len(n), inp),
        !inp.backing ==> <&'de str as SchemaReadContext<'de, C, context::Len>>::context_dec(
            context::Len(n),
            inp,
        ) == Err::<(Seq<char>, Input), Fault>(
            (Fault { err: ReadError::Io(crate::io::ReadError::UnsupportedBorrow), left: inp }),
        ),
        inp.backing ==> <Cow<'de, [u8]> as SchemaReadContext<'de, C, context::Len>>::context_dec(
            context::Len(n),
            inp,
        ) == <&'de [u8] as SchemaReadContext<'de, C, context::Len>>::context_dec(
            context::Len(n),
            inp,
        ),
        !inp.backing ==> <Cow<'de, [u8]> as SchemaReadContext<'de, C, context::Len>>::context_dec(
            context::Len(n),
            inp,
        ) == <Vec<u8> as SchemaReadContext<'de, C, context::Len>>::context_dec(
            context::Len(n),
            inp,
        ),
        <String as SchemaReadContext<'de, C, context::Len>>::context_val(&s) == s@,
        <&'de str as SchemaReadContext<'de, C, context::Len>>::context_val(&t) == t@,
        <Cow<'de, [u8]> as SchemaReadContext<'de, C, context::Len>>::context_val(&b) == b@,
        <Cow<'de, [u8]> as SchemaReadContext<'de, C, context::Len>>::context_lawful(),
{
    assert(n * 1 == n);
    if n <= inp.bytes.len() {
        lemma_byte_vals(inp.bytes.take(n as int));
    }
}

} // verus!
