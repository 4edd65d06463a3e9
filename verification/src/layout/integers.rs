//! What the bytes of an integer are.
use crate::config::ConfigCore;
use crate::error::ReadError;
use crate::model::{Fault, Input};
use crate::schema::byte_order::{
    le_bytes, le_value, lemma_base_16, lemma_uint_bytes_len, uint_bytes, uint_value,
};
use crate::schema::int_encoding::{
    lemma_fixed_dec, twos, untwos, BigEndian, ByteOrder, FixInt, IntEncoding, IntWidth,
    LittleEndian, NativeEndian, VarInt,
};
use crate::schema::{RoundTrip, SchemaRead, SchemaWrite, TypeMeta};
use vstd::arithmetic::div_mod::lemma_div_denominator;
use vstd::arithmetic::power::{lemma_pow0, lemma_pow_positive, pow};
use vstd::endian::endianness;
use vstd::prelude::*;

verus! {

/// The most significant byte comes first, last, or as on the machine.
pub proof fn law_orders_of_bytes()
    ensures
        !LittleEndian::big(),
        BigEndian::big(),
        NativeEndian::big() <==> endianness() is Big,
{
}

proof fn lemma_le_digit(v: nat, n: nat, i: int)
    requires
        0 <= i < n,
    ensures
        le_bytes(v, n).len() == n,
        le_bytes(v, n)[i] == (v as int / pow(256, i as nat)) % 256,
    decreases n,
{
    lemma_uint_bytes_len(v, n, false);
    lemma_uint_bytes_len(v / 256, (n - 1) as nat, false);
    if i == 0 {
        lemma_pow0(256);
        assert(v as int / 1 == v);
    } else {
        lemma_le_digit(v / 256, (n - 1) as nat, i - 1);
        let p = pow(256, (i - 1) as nat);
        lemma_pow_positive(256, (i - 1) as nat);
        lemma_div_denominator(v as int, 256, p);
        assert(pow(256, i as nat) == 256 * p) by {
            reveal_with_fuel(pow, 2);
        }
        assert(le_bytes(v, n)[i] == le_bytes(v / 256, (n - 1) as nat)[i - 1]);
    }
}

/// A number of fixed width takes as many bytes as its type, and the byte that stands for the power
/// `256^i` is the digit of the number at that power: at place `i` where the least significant byte
/// comes first, and at place `i` from the end where the most significant does.
pub proof fn law_fixed_width_digits<B: ByteOrder>(w: IntWidth, v: nat, i: nat)
    ensures
        w is W16 ==> <FixInt as IntEncoding<B>>::uint_bytes(w, v).len() == 2,
        w is W16 && i < 2 ==> (v as int / pow(256, i)) % 256 == <FixInt as IntEncoding<
            B,
        >>::uint_bytes(w, v)[if B::big() {
            2 - 1 - i
        } else {
            i as int
        }],
        w is W32 ==> <FixInt as IntEncoding<B>>::uint_bytes(w, v).len() == 4,
        w is W32 && i < 4 ==> (v as int / pow(256, i)) % 256 == <FixInt as IntEncoding<
            B,
        >>::uint_bytes(w, v)[if B::big() {
            4 - 1 - i
        } else {
            i as int
        }],
        w is W64 ==> <FixInt as IntEncoding<B>>::uint_bytes(w, v).len() == 8,
        w is W64 && i < 8 ==> (v as int / pow(256, i)) % 256 == <FixInt as IntEncoding<
            B,
        >>::uint_bytes(w, v)[if B::big() {
            8 - 1 - i
        } else {
            i as int
        }],
        w is W128 ==> <FixInt as IntEncoding<B>>::uint_bytes(w, v).len() == 16,
        w is W128 && i < 16 ==> (v as int / pow(256, i)) % 256 == <FixInt as IntEncoding<
            B,
        >>::uint_bytes(w, v)[if B::big() {
            16 - 1 - i
        } else {
            i as int
        }],
{
    let n = w.bytes();
    lemma_uint_bytes_len(v, n, B::big());
    if i < n {
        lemma_le_digit(v, n, i as int);
    }
}

/// A negative number of fixed width is laid out as what it is congruent to modulo the number of
/// values of its type.
pub proof fn law_fixed_width_signed<B: ByteOrder>(w: IntWidth, v: int)
    ensures
        w is W16 && -0x8000 <= v < 0x8000 ==> <FixInt as IntEncoding<B>>::sint_bytes(w, v)
            == <FixInt as IntEncoding<B>>::uint_bytes(w, (v % 0x1_0000int) as nat),
        w is W32 && -0x8000_0000 <= v < 0x8000_0000 ==> <FixInt as IntEncoding<B>>::sint_bytes(w, v)
            == <FixInt as IntEncoding<B>>::uint_bytes(w, (v % 0x1_0000_0000int) as nat),
        w is W64 && -0x8000_0000_0000_0000 <= v < 0x8000_0000_0000_0000
            ==> <FixInt as IntEncoding<B>>::sint_bytes(w, v)
            == <FixInt as IntEncoding<B>>::uint_bytes(w, (v % 0x1_0000_0000_0000_0000int) as nat),
        w is W128
            && -0x8000_0000_0000_0000_0000_0000_0000_0000
                <= v < 0x8000_0000_0000_0000_0000_0000_0000_0000
                    ==> <FixInt as IntEncoding<B>>::sint_bytes(w, v)
            == <FixInt as IntEncoding<B>>::uint_bytes(w,
                (v % 0x1_0000_0000_0000_0000_0000_0000_0000_0000int) as nat),
{
}

proof fn lemma_le_value_digits(s: Seq<u8>)
    ensures
        le_bytes(le_value(s), s.len()) == s,
    decreases s.len(),
{
    if s.len() > 0 {
        lemma_le_value_digits(s.skip(1));
        let v = le_value(s);
        assert(v % 256 == s[0]);
        assert(v / 256 == le_value(s.skip(1)));
        assert(le_bytes(v, s.len()) =~= seq![s[0]] + s.skip(1));
        assert(seq![s[0]] + s.skip(1) =~= s);
    } else {
        assert(le_bytes(0, 0) =~= s);
    }
}

proof fn lemma_uint_value_digits(s: Seq<u8>, big: bool)
    ensures
        uint_bytes(uint_value(s, big), s.len(), big) == s,
{
    lemma_le_value_digits(s);
    lemma_le_value_digits(s.reverse());
    assert(s.reverse().reverse() =~= s);
}

/// What is read as a number of fixed width is the number of which the first bytes are the bytes,
/// and the rest is left. Too few bytes are an error, and are left.
pub proof fn law_fixed_width_reads<B: ByteOrder>(w: IntWidth, inp: Input)
    ensures
        w is W16 && inp.bytes.len() < 2 ==> {
            &&& <FixInt as IntEncoding<B>>::uint_dec(w, inp) matches Err(f) && f.left == inp
                && f.err == ReadError::Io(crate::io::ReadError::ReadSizeLimit(2))
            &&& <FixInt as IntEncoding<B>>::sint_dec(w, inp) matches Err(f) && f.left == inp
                && f.err == ReadError::Io(crate::io::ReadError::ReadSizeLimit(2))
        },
        w is W16 && inp.bytes.len() >= 2 ==> {
            &&& <FixInt as IntEncoding<B>>::uint_dec(w, inp) matches Ok((v, rest)) && v <= 0xffff
                && <FixInt as IntEncoding<B>>::uint_bytes(w, v) == inp.bytes.take(2)
                && rest.bytes == inp.bytes.skip(2) && rest.backing == inp.backing
            &&& <FixInt as IntEncoding<B>>::sint_dec(w, inp) matches Ok((v, rest)) && -0x8000 <= v
                < 0x8000 && <FixInt as IntEncoding<B>>::sint_bytes(w, v) == inp.bytes.take(2)
                && rest.bytes == inp.bytes.skip(2) && rest.backing == inp.backing
        },
        w is W32 && inp.bytes.len() < 4 ==> {
            &&& <FixInt as IntEncoding<B>>::uint_dec(w, inp) matches Err(f) && f.left == inp
                && f.err == ReadError::Io(crate::io::ReadError::ReadSizeLimit(4))
            &&& <FixInt as IntEncoding<B>>::sint_dec(w, inp) matches Err(f) && f.left == inp
                && f.err == ReadError::Io(crate::io::ReadError::ReadSizeLimit(4))
        },
        w is W32 && inp.bytes.len() >= 4 ==> {
            &&& <FixInt as IntEncoding<B>>::uint_dec(w, inp) matches Ok((v, rest))
                && v <= 0xffff_ffff
                && <FixInt as IntEncoding<B>>::uint_bytes(w, v) == inp.bytes.take(4)
                && rest.bytes == inp.bytes.skip(4) && rest.backing == inp.backing
            &&& <FixInt as IntEncoding<B>>::sint_dec(w, inp) matches Ok((v, rest))
                && -0x8000_0000 <= v
                < 0x8000_0000 && <FixInt as IntEncoding<B>>::sint_bytes(w, v) == inp.bytes.take(4)
                && rest.bytes == inp.bytes.skip(4) && rest.backing == inp.backing
        },
        w is W64 && inp.bytes.len() < 8 ==> {
            &&& <FixInt as IntEncoding<B>>::uint_dec(w, inp) matches Err(f) && f.left == inp
                && f.err == ReadError::Io(crate::io::ReadError::ReadSizeLimit(8))
            &&& <FixInt as IntEncoding<B>>::sint_dec(w, inp) matches Err(f) && f.left == inp
                && f.err == ReadError::Io(crate::io::ReadError::ReadSizeLimit(8))
        },
        w is W64 && inp.bytes.len() >= 8 ==> {
            &&& <FixInt as IntEncoding<B>>::uint_dec(w, inp) matches Ok((v, rest))
                && v <= 0xffff_ffff_ffff_ffff
                && <FixInt as IntEncoding<B>>::uint_bytes(w, v) == inp.bytes.take(8)
                && rest.bytes == inp.bytes.skip(8) && rest.backing == inp.backing
            &&& <FixInt as IntEncoding<B>>::sint_dec(w, inp) matches Ok((v, rest))
                && -0x8000_0000_0000_0000 <= v
                < 0x8000_0000_0000_0000 && <FixInt as IntEncoding<B>>::sint_bytes(w, v)
                    == inp.bytes.take(8)
                && rest.bytes == inp.bytes.skip(8) && rest.backing == inp.backing
        },
        w is W128 && inp.bytes.len() < 16 ==> {
            &&& <FixInt as IntEncoding<B>>::uint_dec(w, inp) matches Err(f) && f.left == inp
                && f.err == ReadError::Io(crate::io::ReadError::ReadSizeLimit(16))
            &&& <FixInt as IntEncoding<B>>::sint_dec(w, inp) matches Err(f) && f.left == inp
                && f.err == ReadError::Io(crate::io::ReadError::ReadSizeLimit(16))
        },
        w is W128 && inp.bytes.len() >= 16 ==> {
            &&& <FixInt as IntEncoding<B>>::uint_dec(w, inp) matches Ok((v, rest))
                && v <= 0xffff_ffff_ffff_ffff_ffff_ffff_ffff_ffff
                && <FixInt as IntEncoding<B>>::uint_bytes(w, v) == inp.bytes.take(16)
                && rest.bytes == inp.bytes.skip(16) && rest.backing == inp.backing
            &&& <FixInt as IntEncoding<B>>::sint_dec(w, inp) matches Ok((v, rest))
                && -0x8000_0000_0000_0000_0000_0000_0000_0000 <= v
                < 0x8000_0000_0000_0000_0000_0000_0000_0000
                    && <FixInt as IntEncoding<B>>::sint_bytes(w, v) == inp.bytes.take(16)
                && rest.bytes == inp.bytes.skip(16) && rest.backing == inp.backing
        },
{
    let n = w.bytes();
    lemma_base_16();
    if inp.bytes.len() >= n {
        let s = inp.bytes.take(n as int);
        lemma_uint_value_digits(s, B::big());
        lemma_fixed_dec(n, B::big(), inp);
        let u = uint_value(s, B::big());
        assert(twos(w, untwos(w, u)) == u);
    }
}

/// A number of variable width is one byte up to 250, and above that a byte that tells how many
/// bytes follow, and then the number in as few of two, four, eight and sixteen bytes as hold it, in
/// the order of bytes of numbers of fixed width.
pub proof fn law_variable_width_bytes<B: ByteOrder>(w: IntWidth, v: nat)
    ensures
        v <= 250 ==> <VarInt as IntEncoding<B>>::uint_bytes(w, v) == seq![v as u8],
        250 < v <= 0xffff ==> <VarInt as IntEncoding<B>>::uint_bytes(w, v) == seq![251u8]
            + <FixInt as IntEncoding<B>>::uint_bytes(IntWidth::W16, v),
        0xffff < v <= 0xffff_ffff ==> <VarInt as IntEncoding<B>>::uint_bytes(w, v) == seq![252u8]
            + <FixInt as IntEncoding<B>>::uint_bytes(IntWidth::W32, v),
        0xffff_ffff < v <= 0xffff_ffff_ffff_ffff ==> <VarInt as IntEncoding<B>>::uint_bytes(w, v)
            == seq![253u8] + <FixInt as IntEncoding<B>>::uint_bytes(IntWidth::W64, v),
        0xffff_ffff_ffff_ffff < v <= 0xffff_ffff_ffff_ffff_ffff_ffff_ffff_ffff
            ==> <VarInt as IntEncoding<
            B,
        >>::uint_bytes(w, v) == seq![254u8] + <FixInt as IntEncoding<B>>::uint_bytes(
            IntWidth::W128,
            v,
        ),
{
}

/// A signed number of variable width stands at its place in `0, -1, 1, -2, 2, ..`.
pub proof fn law_variable_width_signed<B: ByteOrder>(w: IntWidth, v: int)
    ensures
        v >= 0 ==> <VarInt as IntEncoding<B>>::sint_bytes(w, v) == <VarInt as IntEncoding<
            B,
        >>::uint_bytes(w, (2 * v) as nat),
        v < 0 ==> <VarInt as IntEncoding<B>>::sint_bytes(w, v) == <VarInt as IntEncoding<
            B,
        >>::uint_bytes(w, (-2 * v - 1) as nat),
{
}

/// Reading a number of variable width goes by its first byte. One that announces more bytes than
/// the type has is an error, of which the byte is taken.
pub proof fn law_variable_width_reads<B: ByteOrder>(w: IntWidth, inp: Input)
    ensures
        inp.bytes.len() == 0 ==> <VarInt as IntEncoding<B>>::uint_dec(w, inp) == Err::<
            (nat, Input),
            Fault,
        >((Fault { err: ReadError::Io(crate::io::ReadError::ReadSizeLimit(1)), left: inp })),
        inp.bytes.len() > 0 ==> {
            let b = inp.bytes[0];
            let tail = Input { bytes: inp.bytes.skip(1), backing: inp.backing };
            let r = <VarInt as IntEncoding<B>>::uint_dec(w, inp);
            &&& b <= 250 ==> r == Ok::<(nat, Input), Fault>((b as nat, tail))
            &&& b == 251 ==> r == <FixInt as IntEncoding<B>>::uint_dec(IntWidth::W16, tail)
            &&& b == 252 && !(w is W16) ==> r == <FixInt as IntEncoding<B>>::uint_dec(
                IntWidth::W32,
                tail,
            )
            &&& b == 253 && (w is W64 || w is W128) ==> r == <FixInt as IntEncoding<B>>::uint_dec(
                IntWidth::W64,
                tail,
            )
            &&& b == 254 && w is W128 ==> r == <FixInt as IntEncoding<B>>::uint_dec(
                IntWidth::W128,
                tail,
            )
            &&& (b == 252 && w is W16 || b == 253 && (w is W16 || w is W32) || b == 254 && !(
            w is W128) || b == 255) ==> r == Err::<(nat, Input), Fault>(
                (Fault { err: ReadError::InvalidTagEncoding(b as usize), left: tail }),
            )
        },
        match <VarInt as IntEncoding<B>>::uint_dec(w, inp) {
            Ok((u, rest)) => <VarInt as IntEncoding<B>>::sint_dec(w, inp) matches Ok((v, r)) && r
                == rest && u == (if v >= 0 {
                2 * v
            } else {
                -2 * v - 1
            }),
            Err(f) => <VarInt as IntEncoding<B>>::sint_dec(w, inp) == Err::<(int, Input), Fault>(f),
        },
{
}

/// Which layouts have a fixed width, and which are those of the machine.
pub proof fn law_layouts_of_integers<B: ByteOrder>()
    ensures
        <FixInt as IntEncoding<B>>::fixed(),
        <FixInt as IntEncoding<B>>::zero_copy() <==> (B::big() <==> endianness() is Big),
        !<VarInt as IntEncoding<B>>::fixed(),
        !<VarInt as IntEncoding<B>>::zero_copy(),
{
}

/// `u16` is laid out as an integer of two bytes of the configuration.
pub proof fn law_u16_is_an_integer<'de, C: ConfigCore>(v: u16, inp: Input)
    ensures
        <u16 as SchemaWrite<C>>::emit(&v).err is None,
        <u16 as SchemaWrite<C>>::emit(&v).bytes == C::IntEncoding::uint_bytes(
            IntWidth::W16,
            v as nat,
        ),
        match C::IntEncoding::uint_dec(IntWidth::W16, inp) {
            Ok((u, rest)) => <u16 as SchemaRead<'de, C>>::dec(inp) matches Ok((x, r)) && x == u && r
                == rest,
            Err(f) => <u16 as SchemaRead<'de, C>>::dec(inp) matches Err(g) && g == f,
        },
        <u16 as SchemaRead<'de, C>>::dst_val(&v) == v,
        <u16 as SchemaWrite<C>>::src_val(&v) == v,
        <u16 as SchemaWrite<C>>::size_err(&v) is None,
        <u16 as SchemaWrite<C>>::write_lawful(),
        <u16 as SchemaRead<'de, C>>::read_lawful(),
        <u16 as RoundTrip<'de, C>>::round_trips(),
        <u16 as RoundTrip<'de, C>>::src_valid(&v),
        !<u16 as RoundTrip<'de, C>>::needs_backing(),
        <u16 as SchemaRead<'de, C>>::read_meta() == <u16 as SchemaWrite<C>>::write_meta(),
        <u16 as SchemaWrite<C>>::write_meta() == (if C::IntEncoding::fixed() {
            TypeMeta::Static { size: 2, zero_copy: C::IntEncoding::zero_copy() }
        } else {
            TypeMeta::Dynamic
        }),
{
    C::IntEncoding::lemma_uint_dec(IntWidth::W16, inp);
}

/// `i16` is laid out as a signed integer of two bytes of the configuration.
pub proof fn law_i16_is_an_integer<'de, C: ConfigCore>(v: i16, inp: Input)
    ensures
        <i16 as SchemaWrite<C>>::emit(&v).err is None,
        <i16 as SchemaWrite<C>>::emit(&v).bytes == C::IntEncoding::sint_bytes(
            IntWidth::W16,
            v as int,
        ),
        match C::IntEncoding::sint_dec(IntWidth::W16, inp) {
            Ok((u, rest)) => <i16 as SchemaRead<'de, C>>::dec(inp) matches Ok((x, r)) && x == u && r
                == rest,
            Err(f) => <i16 as SchemaRead<'de, C>>::dec(inp) matches Err(g) && g == f,
        },
        <i16 as SchemaRead<'de, C>>::dst_val(&v) == v,
        <i16 as SchemaWrite<C>>::src_val(&v) == v,
        <i16 as SchemaWrite<C>>::size_err(&v) is None,
        <i16 as SchemaWrite<C>>::write_lawful(),
        <i16 as SchemaRead<'de, C>>::read_lawful(),
        <i16 as RoundTrip<'de, C>>::round_trips(),
        <i16 as RoundTrip<'de, C>>::src_valid(&v),
        !<i16 as RoundTrip<'de, C>>::needs_backing(),
        <i16 as SchemaRead<'de, C>>::read_meta() == <i16 as SchemaWrite<C>>::write_meta(),
        <i16 as SchemaWrite<C>>::write_meta() == (if C::IntEncoding::fixed() {
            TypeMeta::Static { size: 2, zero_copy: C::IntEncoding::zero_copy() }
        } else {
            TypeMeta::Dynamic
        }),
{
    C::IntEncoding::lemma_sint_dec(IntWidth::W16, inp);
}

/// `u32` is laid out as an integer of four bytes of the configuration.
pub proof fn law_u32_is_an_integer<'de, C: ConfigCore>(v: u32, inp: Input)
    ensures
        <u32 as SchemaWrite<C>>::emit(&v).err is None,
        <u32 as SchemaWrite<C>>::emit(&v).bytes == C::IntEncoding::uint_bytes(
            IntWidth::W32,
            v as nat,
        ),
        match C::IntEncoding::uint_dec(IntWidth::W32, inp) {
            Ok((u, rest)) => <u32 as SchemaRead<'de, C>>::dec(inp) matches Ok((x, r)) && x == u && r
                == rest,
            Err(f) => <u32 as SchemaRead<'de, C>>::dec(inp) matches Err(g) && g == f,
        },
        <u32 as SchemaRead<'de, C>>::dst_val(&v) == v,
        <u32 as SchemaWrite<C>>::src_val(&v) == v,
        <u32 as SchemaWrite<C>>::size_err(&v) is None,
        <u32 as SchemaWrite<C>>::write_lawful(),
        <u32 as SchemaRead<'de, C>>::read_lawful(),
        <u32 as RoundTrip<'de, C>>::round_trips(),
        <u32 as RoundTrip<'de, C>>::src_valid(&v),
        !<u32 as RoundTrip<'de, C>>::needs_backing(),
        <u32 as SchemaRead<'de, C>>::read_meta() == <u32 as SchemaWrite<C>>::write_meta(),
        <u32 as SchemaWrite<C>>::write_meta() == (if C::IntEncoding::fixed() {
            TypeMeta::Static { size: 4, zero_copy: C::IntEncoding::zero_copy() }
        } else {
            TypeMeta::Dynamic
        }),
{
    C::IntEncoding::lemma_uint_dec(IntWidth::W32, inp);
}

/// `i32` is laid out as a signed integer of four bytes of the configuration.
pub proof fn law_i32_is_an_integer<'de, C: ConfigCore>(v: i32, inp: Input)
    ensures
        <i32 as SchemaWrite<C>>::emit(&v).err is None,
        <i32 as SchemaWrite<C>>::emit(&v).bytes == C::IntEncoding::sint_bytes(
            IntWidth::W32,
            v as int,
        ),
        match C::IntEncoding::sint_dec(IntWidth::W32, inp) {
            Ok((u, rest)) => <i32 as SchemaRead<'de, C>>::dec(inp) matches Ok((x, r)) && x == u && r
                == rest,
            Err(f) => <i32 as SchemaRead<'de, C>>::dec(inp) matches Err(g) && g == f,
        },
        <i32 as SchemaRead<'de, C>>::dst_val(&v) == v,
        <i32 as SchemaWrite<C>>::src_val(&v) == v,
        <i32 as SchemaWrite<C>>::size_err(&v) is None,
        <i32 as SchemaWrite<C>>::write_lawful(),
        <i32 as SchemaRead<'de, C>>::read_lawful(),
        <i32 as RoundTrip<'de, C>>::round_trips(),
        <i32 as RoundTrip<'de, C>>::src_valid(&v),
        !<i32 as RoundTrip<'de, C>>::needs_backing(),
        <i32 as SchemaRead<'de, C>>::read_meta() == <i32 as SchemaWrite<C>>::write_meta(),
        <i32 as SchemaWrite<C>>::write_meta() == (if C::IntEncoding::fixed() {
            TypeMeta::Static { size: 4, zero_copy: C::IntEncoding::zero_copy() }
        } else {
            TypeMeta::Dynamic
        }),
{
    C::IntEncoding::lemma_sint_dec(IntWidth::W32, inp);
}

/// `u64` is laid out as an integer of eight bytes of the configuration.
pub proof fn law_u64_is_an_integer<'de, C: ConfigCore>(v: u64, inp: Input)
    ensures
        <u64 as SchemaWrite<C>>::emit(&v).err is None,
        <u64 as SchemaWrite<C>>::emit(&v).bytes == C::IntEncoding::uint_bytes(
            IntWidth::W64,
            v as nat,
        ),
        match C::IntEncoding::uint_dec(IntWidth::W64, inp) {
            Ok((u, rest)) => <u64 as SchemaRead<'de, C>>::dec(inp) matches Ok((x, r)) && x == u && r
                == rest,
            Err(f) => <u64 as SchemaRead<'de, C>>::dec(inp) matches Err(g) && g == f,
        },
        <u64 as SchemaRead<'de, C>>::dst_val(&v) == v,
        <u64 as SchemaWrite<C>>::src_val(&v) == v,
        <u64 as SchemaWrite<C>>::size_err(&v) is None,
        <u64 as SchemaWrite<C>>::write_lawful(),
        <u64 as SchemaRead<'de, C>>::read_lawful(),
        <u64 as RoundTrip<'de, C>>::round_trips(),
        <u64 as RoundTrip<'de, C>>::src_valid(&v),
        !<u64 as RoundTrip<'de, C>>::needs_backing(),
        <u64 as SchemaRead<'de, C>>::read_meta() == <u64 as SchemaWrite<C>>::write_meta(),
        <u64 as SchemaWrite<C>>::write_meta() == (if C::IntEncoding::fixed() {
            TypeMeta::Static { size: 8, zero_copy: C::IntEncoding::zero_copy() }
        } else {
            TypeMeta::Dynamic
        }),
{
    C::IntEncoding::lemma_uint_dec(IntWidth::W64, inp);
}

/// `i64` is laid out as a signed integer of eight bytes of the configuration.
pub proof fn law_i64_is_an_integer<'de, C: ConfigCore>(v: i64, inp: Input)
    ensures
        <i64 as SchemaWrite<C>>::emit(&v).err is None,
        <i64 as SchemaWrite<C>>::emit(&v).bytes == C::IntEncoding::sint_bytes(
            IntWidth::W64,
            v as int,
        ),
        match C::IntEncoding::sint_dec(IntWidth::W64, inp) {
            Ok((u, rest)) => <i64 as SchemaRead<'de, C>>::dec(inp) matches Ok((x, r)) && x == u && r
                == rest,
            Err(f) => <i64 as SchemaRead<'de, C>>::dec(inp) matches Err(g) && g == f,
        },
        <i64 as SchemaRead<'de, C>>::dst_val(&v) == v,
        <i64 as SchemaWrite<C>>::src_val(&v) == v,
        <i64 as SchemaWrite<C>>::size_err(&v) is None,
        <i64 as SchemaWrite<C>>::write_lawful(),
        <i64 as SchemaRead<'de, C>>::read_lawful(),
        <i64 as RoundTrip<'de, C>>::round_trips(),
        <i64 as RoundTrip<'de, C>>::src_valid(&v),
        !<i64 as RoundTrip<'de, C>>::needs_backing(),
        <i64 as SchemaRead<'de, C>>::read_meta() == <i64 as SchemaWrite<C>>::write_meta(),
        <i64 as SchemaWrite<C>>::write_meta() == (if C::IntEncoding::fixed() {
            TypeMeta::Static { size: 8, zero_copy: C::IntEncoding::zero_copy() }
        } else {
            TypeMeta::Dynamic
        }),
{
    C::IntEncoding::lemma_sint_dec(IntWidth::W64, inp);
}

/// `u128` is laid out as an integer of sixteen bytes of the configuration.
pub proof fn law_u128_is_an_integer<'de, C: ConfigCore>(v: u128, inp: Input)
    ensures
        <u128 as SchemaWrite<C>>::emit(&v).err is None,
        <u128 as SchemaWrite<C>>::emit(&v).bytes == C::IntEncoding::uint_bytes(
            IntWidth::W128,
            v as nat,
        ),
        match C::IntEncoding::uint_dec(IntWidth::W128, inp) {
            Ok((u, rest)) => <u128 as SchemaRead<'de, C>>::dec(inp) matches Ok((x, r)) && x
                == u && r
                == rest,
            Err(f) => <u128 as SchemaRead<'de, C>>::dec(inp) matches Err(g) && g == f,
        },
        <u128 as SchemaRead<'de, C>>::dst_val(&v) == v,
        <u128 as SchemaWrite<C>>::src_val(&v) == v,
        <u128 as SchemaWrite<C>>::size_err(&v) is None,
        <u128 as SchemaWrite<C>>::write_lawful(),
        <u128 as SchemaRead<'de, C>>::read_lawful(),
        <u128 as RoundTrip<'de, C>>::round_trips(),
        <u128 as RoundTrip<'de, C>>::src_valid(&v),
        !<u128 as RoundTrip<'de, C>>::needs_backing(),
        <u128 as SchemaRead<'de, C>>::read_meta() == <u128 as SchemaWrite<C>>::write_meta(),
        <u128 as SchemaWrite<C>>::write_meta() == (if C::IntEncoding::fixed() {
            TypeMeta::Static { size: 16, zero_copy: C::IntEncoding::zero_copy() }
        } else {
            TypeMeta::Dynamic
        }),
{
    C::IntEncoding::lemma_uint_dec(IntWidth::W128, inp);
}

/// `i128` is laid out as a signed integer of sixteen bytes of the configuration.
pub proof fn law_i128_is_an_integer<'de, C: ConfigCore>(v: i128, inp: Input)
    ensures
        <i128 as SchemaWrite<C>>::emit(&v).err is None,
        <i128 as SchemaWrite<C>>::emit(&v).bytes == C::IntEncoding::sint_bytes(
            IntWidth::W128,
            v as int,
        ),
        match C::IntEncoding::sint_dec(IntWidth::W128, inp) {
            Ok((u, rest)) => <i128 as SchemaRead<'de, C>>::dec(inp) matches Ok((x, r)) && x
                == u && r
                == rest,
            Err(f) => <i128 as SchemaRead<'de, C>>::dec(inp) matches Err(g) && g == f,
        },
        <i128 as SchemaRead<'de, C>>::dst_val(&v) == v,
        <i128 as SchemaWrite<C>>::src_val(&v) == v,
        <i128 as SchemaWrite<C>>::size_err(&v) is None,
        <i128 as SchemaWrite<C>>::write_lawful(),
        <i128 as SchemaRead<'de, C>>::read_lawful(),
        <i128 as RoundTrip<'de, C>>::round_trips(),
        <i128 as RoundTrip<'de, C>>::src_valid(&v),
        !<i128 as RoundTrip<'de, C>>::needs_backing(),
        <i128 as SchemaRead<'de, C>>::read_meta() == <i128 as SchemaWrite<C>>::write_meta(),
        <i128 as SchemaWrite<C>>::write_meta() == (if C::IntEncoding::fixed() {
            TypeMeta::Static { size: 16, zero_copy: C::IntEncoding::zero_copy() }
        } else {
            TypeMeta::Dynamic
        }),
{
    C::IntEncoding::lemma_sint_dec(IntWidth::W128, inp);
}

/// `usize` is laid out as an integer of eight bytes of the configuration, whatever the machine.
pub proof fn law_usize_is_an_integer<'de, C: ConfigCore>(v: usize, inp: Input)
    ensures
        <usize as SchemaWrite<C>>::emit(&v).err is None,
        <usize as SchemaWrite<C>>::emit(&v).bytes == C::IntEncoding::uint_bytes(
            IntWidth::W64,
            v as nat,
        ),
        match C::IntEncoding::uint_dec(IntWidth::W64, inp) {
            Ok((u, rest)) => if usize::MIN <= u <= usize::MAX {
                <usize as SchemaRead<'de, C>>::dec(inp) matches Ok((x, r)) && x == u && r == rest
            } else {
                <usize as SchemaRead<'de, C>>::dec(inp) matches Err(f) && f.left == rest && f.err
                    == ReadError::PointerSizedReadError
            },
            Err(f) => <usize as SchemaRead<'de, C>>::dec(inp) matches Err(g) && g == f,
        },
        <usize as SchemaRead<'de, C>>::dst_val(&v) == v,
        <usize as SchemaWrite<C>>::src_val(&v) == v,
        <usize as SchemaWrite<C>>::size_err(&v) is None,
        <usize as SchemaWrite<C>>::write_lawful(),
        <usize as SchemaRead<'de, C>>::read_lawful(),
        <usize as RoundTrip<'de, C>>::round_trips(),
        <usize as RoundTrip<'de, C>>::src_valid(&v),
        !<usize as RoundTrip<'de, C>>::needs_backing(),
        <usize as SchemaRead<'de, C>>::read_meta() == <usize as SchemaWrite<C>>::write_meta(),
        <usize as SchemaWrite<C>>::write_meta() == (if C::IntEncoding::fixed() {
            TypeMeta::Static { size: 8, zero_copy: C::IntEncoding::zero_copy() && usize::BITS
                == 64 }
        } else {
            TypeMeta::Dynamic
        }),
{
    C::IntEncoding::lemma_uint_dec(IntWidth::W64, inp);
}

/// `isize` is laid out as a signed integer of eight bytes of the configuration, whatever the machine.
pub proof fn law_isize_is_an_integer<'de, C: ConfigCore>(v: isize, inp: Input)
    ensures
        <isize as SchemaWrite<C>>::emit(&v).err is None,
        <isize as SchemaWrite<C>>::emit(&v).bytes == C::IntEncoding::sint_bytes(
            IntWidth::W64,
            v as int,
        ),
        match C::IntEncoding::sint_dec(IntWidth::W64, inp) {
            Ok((u, rest)) => if isize::MIN <= u <= isize::MAX {
                <isize as SchemaRead<'de, C>>::dec(inp) matches Ok((x, r)) && x == u && r == rest
            } else {
                <isize as SchemaRead<'de, C>>::dec(inp) matches Err(f) && f.left == rest && f.err
                    == ReadError::PointerSizedReadError
            },
            Err(f) => <isize as SchemaRead<'de, C>>::dec(inp) matches Err(g) && g == f,
        },
        <isize as SchemaRead<'de, C>>::dst_val(&v) == v,
        <isize as SchemaWrite<C>>::src_val(&v) == v,
        <isize as SchemaWrite<C>>::size_err(&v) is None,
        <isize as SchemaWrite<C>>::write_lawful(),
        <isize as SchemaRead<'de, C>>::read_lawful(),
        <isize as RoundTrip<'de, C>>::round_trips(),
        <isize as RoundTrip<'de, C>>::src_valid(&v),
        !<isize as RoundTrip<'de, C>>::needs_backing(),
        <isize as SchemaRead<'de, C>>::read_meta() == <isize as SchemaWrite<C>>::write_meta(),
        <isize as SchemaWrite<C>>::write_meta() == (if C::IntEncoding::fixed() {
            TypeMeta::Static { size: 8, zero_copy: C::IntEncoding::zero_copy() && usize::BITS
                == 64 }
        } else {
            TypeMeta::Dynamic
        }),
{
    C::IntEncoding::lemma_sint_dec(IntWidth::W64, inp);
}

} // verus!
