//! How integers wider than a byte are laid out.
use crate::schema::byte_order::{
    base, lemma_base_16, lemma_uint_bytes_len, lemma_uint_value_bound, lemma_uint_value_bytes,
    uint_bytes, uint_from_bytes, uint_to_bytes, uint_value,
};
pub use crate::schema::byte_order::{BigEndian, ByteOrder, LittleEndian, NativeEndian};
use crate::error::{invalid_tag_encoding, ReadError, ReadResult, WriteResult};
use crate::io::{write_bytes, Reader, Writer};
use crate::model::{lemma_prepend_skip, lemma_skip_follows, Emit, Fault, Input};
use vstd::prelude::*;

verus! {

broadcast use {
    crate::model::lemma_follows_transitive,
    crate::model::lemma_follows_reflexive,
};

/// The width of an integer type.
#[derive(Debug, Clone, Copy, PartialEq, Eq)]
pub enum IntWidth {
    W16,
    W32,
    W64,
    W128,
}

impl IntWidth {
    /// The width in bytes.
    pub open spec fn bytes(self) -> nat {
        match self {
            IntWidth::W16 => 2,
            IntWidth::W32 => 4,
            IntWidth::W64 => 8,
            IntWidth::W128 => 16,
        }
    }

    /// The largest unsigned integer of this width.
    pub open spec fn max(self) -> nat {
        match self {
            IntWidth::W16 => 0xffff,
            IntWidth::W32 => 0xffff_ffff,
            IntWidth::W64 => 0xffff_ffff_ffff_ffff,
            IntWidth::W128 => 0xffff_ffff_ffff_ffff_ffff_ffff_ffff_ffff,
        }
    }

    /// Whether `v` is a signed integer of this width.
    pub open spec fn holds(self, v: int) -> bool {
        -(self.max() as int + 1) <= 2 * v <= self.max()
    }

    /// The width in bytes.
    pub fn size(self) -> (n: usize)
        ensures
            n == self.bytes(),
    {
        match self {
            IntWidth::W16 => 2,
            IntWidth::W32 => 4,
            IntWidth::W64 => 8,
            IntWidth::W128 => 16,
        }
    }

    /// The largest unsigned integer of this width.
    pub fn largest(self) -> (n: u128)
        ensures
            n == self.max(),
    {
        match self {
            IntWidth::W16 => 0xffff,
            IntWidth::W32 => 0xffff_ffff,
            IntWidth::W64 => 0xffff_ffff_ffff_ffff,
            IntWidth::W128 => 0xffff_ffff_ffff_ffff_ffff_ffff_ffff_ffff,
        }
    }
}

proof fn lemma_max_base(w: IntWidth)
    ensures
        base(w.bytes()) == w.max() + 1,
{
    lemma_base_16();
}

/// The two's complement of `v` in `w`.
pub open spec fn twos(w: IntWidth, v: int) -> nat {
    if v >= 0 {
        v as nat
    } else {
        (w.max() as int + 1 + v) as nat
    }
}

/// The signed integer whose two's complement in `w` is `u`.
pub open spec fn untwos(w: IntWidth, u: nat) -> int {
    if 2 * u <= w.max() {
        u as int
    } else {
        u as int - (w.max() as int + 1)
    }
}

/// Signed integers as unsigned ones, close to zero first: `0, -1, 1, -2, 2, ..`.
pub open spec fn zigzag(v: int) -> nat {
    if v >= 0 {
        (2 * v) as nat
    } else {
        (-2 * v - 1) as nat
    }
}

/// The signed integer that stands at place `u` of `0, -1, 1, -2, 2, ..`.
pub open spec fn unzigzag(u: nat) -> int {
    if u % 2 == 0 {
        (u / 2) as int
    } else {
        -((u / 2) as int) - 1
    }
}

fn to_twos(w: IntWidth, v: i128) -> (u: u128)
    requires
        w.holds(v as int),
    ensures
        u == twos(w, v as int),
        u <= w.max(),
{
    if v >= 0 {
        v as u128
    } else {
        let below: u128 = (-(v + 1)) as u128;
        w.largest() - below
    }
}

fn from_twos(w: IntWidth, u: u128) -> (v: i128)
    requires
        u <= w.max(),
    ensures
        v == untwos(w, u as nat),
        w.holds(v as int),
{
    let max: u128 = w.largest();
    if u <= max / 2 {
        u as i128
    } else {
        let below: u128 = max - u;
        -(below as i128) - 1
    }
}

fn to_zigzag(w: IntWidth, v: i128) -> (u: u128)
    requires
        w.holds(v as int),
    ensures
        u == zigzag(v as int),
        u <= w.max(),
{
    if v >= 0 {
        2 * (v as u128)
    } else {
        2 * ((-(v + 1)) as u128) + 1
    }
}

fn from_zigzag(w: IntWidth, u: u128) -> (v: i128)
    requires
        u <= w.max(),
    ensures
        v == unzigzag(u as nat),
        w.holds(v as int),
{
    let half: u128 = u / 2;
    if u % 2 == 0 {
        half as i128
    } else {
        -(half as i128) - 1
    }
}

/// Reading an unsigned integer of `n` bytes.
pub open spec fn fixed_dec(n: nat, big: bool, inp: Input) -> Result<(nat, Input), Fault> {
    if inp.bytes.len() < n {
        Err(inp.fault(ReadError::Io(crate::io::ReadError::ReadSizeLimit(n as usize))))
    } else {
        Ok((uint_value(inp.bytes.take(n as int), big), inp.skip(n as int)))
    }
}

pub proof fn lemma_fixed_round_trip(v: nat, n: nat, big: bool, rest: Input)
    requires
        v < base(n),
    ensures
        fixed_dec(n, big, rest.prepend(uint_bytes(v, n, big))) == Ok::<_, Fault>((v, rest)),
        uint_bytes(v, n, big).len() == n,
{
    lemma_uint_bytes_len(v, n, big);
    lemma_uint_value_bytes(v, n, big);
    lemma_prepend_skip(rest, uint_bytes(v, n, big));
}

pub proof fn lemma_fixed_dec(n: nat, big: bool, inp: Input)
    ensures
        fixed_dec(n, big, inp) matches Err(f) ==> f.left.follows(inp),
        fixed_dec(n, big, inp) matches Ok((v, rest)) ==> {
            &&& v < base(n)
            &&& rest.follows(inp)
            &&& inp.consumed(rest) == n
        },
{
    if inp.bytes.len() >= n {
        lemma_uint_value_bound(inp.bytes.take(n as int), big);
        lemma_skip_follows(inp, n as int);
    }
}

/// Reads an unsigned integer of `n` bytes.
pub fn read_fixed<'de, R: Reader<'de>>(reader: &mut R, n: usize, big: bool) -> (r: ReadResult<u128>)
    requires
        n <= 16,
    ensures
        final(reader).input().follows(old(reader).input()),
        match fixed_dec(n as nat, big, old(reader).input()) {
            Ok((v, rest)) => {
                &&& r is Ok
                &&& r->Ok_0 == v
                &&& final(reader).input() == rest
            },
            Err(f) => {
                &&& r == Err::<u128, ReadError>(f.err)
                &&& final(reader).input() == f.left
            },
        },
{
    proof {
        lemma_fixed_dec(n as nat, big, old(reader).input());
    }
    match reader.take_vec(n) {
        Ok(bytes) => Ok(uint_from_bytes(&bytes, big)),
        Err(e) => Err(ReadError::Io(e)),
    }
}

/// A layout of the integers that are wider than a byte, given the order of bytes.
pub trait IntEncoding<B: ByteOrder> {
    /// Whether an integer always takes as many bytes as its type.
    spec fn fixed() -> bool;

    /// Whether an integer is laid out as it stands in memory.
    spec fn zero_copy() -> bool;

    /// The bytes of an unsigned integer.
    spec fn uint_bytes(w: IntWidth, v: nat) -> Seq<u8>;

    /// Reading an unsigned integer.
    spec fn uint_dec(w: IntWidth, inp: Input) -> Result<(nat, Input), Fault>;

    /// The bytes of a signed integer.
    spec fn sint_bytes(w: IntWidth, v: int) -> Seq<u8>;

    /// Reading a signed integer.
    spec fn sint_dec(w: IntWidth, inp: Input) -> Result<(int, Input), Fault>;

    /// Reading gives back the unsigned integer that was written.
    proof fn lemma_uint_round_trip(w: IntWidth, v: nat, rest: Input)
        requires
            v <= w.max(),
        ensures
            Self::uint_dec(w, rest.prepend(Self::uint_bytes(w, v))) == Ok::<_, Fault>(
                (v, rest),
            ),
            Self::uint_bytes(w, v).len() <= 17,
            Self::fixed() ==> Self::uint_bytes(w, v).len() == w.bytes(),
    ;

    /// An unsigned integer that was read is of the width that was asked for.
    proof fn lemma_uint_dec(w: IntWidth, inp: Input)
        ensures
            Self::uint_dec(w, inp) matches Err(f) ==> f.left.follows(inp),
            Self::uint_dec(w, inp) matches Ok((v, rest)) ==> {
                &&& v <= w.max()
                &&& rest.follows(inp)
                &&& Self::fixed() ==> inp.consumed(rest) == w.bytes()
            },
    ;

    /// Reading gives back the signed integer that was written.
    proof fn lemma_sint_round_trip(w: IntWidth, v: int, rest: Input)
        requires
            w.holds(v),
        ensures
            Self::sint_dec(w, rest.prepend(Self::sint_bytes(w, v))) == Ok::<_, Fault>(
                (v, rest),
            ),
            Self::sint_bytes(w, v).len() <= 17,
            Self::fixed() ==> Self::sint_bytes(w, v).len() == w.bytes(),
    ;

    /// A signed integer that was read is of the width that was asked for.
    proof fn lemma_sint_dec(w: IntWidth, inp: Input)
        ensures
            Self::sint_dec(w, inp) matches Err(f) ==> f.left.follows(inp),
            Self::sint_dec(w, inp) matches Ok((v, rest)) ==> {
                &&& w.holds(v)
                &&& rest.follows(inp)
                &&& Self::fixed() ==> inp.consumed(rest) == w.bytes()
            },
    ;

    /// Whether an integer always takes as many bytes as its type.
    fn is_fixed() -> (b: bool)
        ensures
            b == Self::fixed(),
    ;

    /// Whether an integer is laid out as it stands in memory.
    fn is_zero_copy() -> (b: bool)
        ensures
            b == Self::zero_copy(),
    ;

    /// The number of bytes of an unsigned integer.
    fn size_of_uint(w: IntWidth, v: u128) -> (n: usize)
        requires
            v <= w.max(),
        ensures
            n == Self::uint_bytes(w, v as nat).len(),
    ;

    /// Writes an unsigned integer.
    fn encode_uint<W: Writer>(writer: &mut W, w: IntWidth, v: u128) -> (r: WriteResult<()>)
        requires
            v <= w.max(),
        ensures
            Emit::done(Self::uint_bytes(w, v as nat)).wrote(
                old(writer).output(),
                final(writer).output(),
                r,
            ),
    ;

    /// Reads an unsigned integer.
    fn decode_uint<'de, R: Reader<'de>>(reader: &mut R, w: IntWidth) -> (r: ReadResult<u128>)
        ensures
            final(reader).input().follows(old(reader).input()),
            match Self::uint_dec(w, old(reader).input()) {
                Ok((v, rest)) => {
                    &&& r is Ok
                    &&& r->Ok_0 == v
                    &&& final(reader).input() == rest
                },
                Err(f) => {
                    &&& r == Err::<u128, ReadError>(f.err)
                    &&& final(reader).input() == f.left
                },
            },
    ;

    /// The number of bytes of a signed integer.
    fn size_of_sint(w: IntWidth, v: i128) -> (n: usize)
        requires
            w.holds(v as int),
        ensures
            n == Self::sint_bytes(w, v as int).len(),
    ;

    /// Writes a signed integer.
    fn encode_sint<W: Writer>(writer: &mut W, w: IntWidth, v: i128) -> (r: WriteResult<()>)
        requires
            w.holds(v as int),
        ensures
            Emit::done(Self::sint_bytes(w, v as int)).wrote(
                old(writer).output(),
                final(writer).output(),
                r,
            ),
    ;

    /// Reads a signed integer.
    fn decode_sint<'de, R: Reader<'de>>(reader: &mut R, w: IntWidth) -> (r: ReadResult<i128>)
        ensures
            final(reader).input().follows(old(reader).input()),
            match Self::sint_dec(w, old(reader).input()) {
                Ok((v, rest)) => {
                    &&& r is Ok
                    &&& r->Ok_0 == v
                    &&& final(reader).input() == rest
                },
                Err(f) => {
                    &&& r == Err::<i128, ReadError>(f.err)
                    &&& final(reader).input() == f.left
                },
            },
    ;
}

/// Every integer takes as many bytes as its type; signed ones stand in two's complement.
pub struct FixInt;

impl<B: ByteOrder> IntEncoding<B> for FixInt {
    open spec fn fixed() -> bool {
        true
    }

    open spec fn zero_copy() -> bool {
        B::big() == NativeEndian::big()
    }

    open spec fn uint_bytes(w: IntWidth, v: nat) -> Seq<u8> {
        uint_bytes(v, w.bytes(), B::big())
    }

    open spec fn uint_dec(w: IntWidth, inp: Input) -> Result<(nat, Input), Fault> {
        fixed_dec(w.bytes(), B::big(), inp)
    }

    open spec fn sint_bytes(w: IntWidth, v: int) -> Seq<u8> {
        uint_bytes(twos(w, v), w.bytes(), B::big())
    }

    open spec fn sint_dec(w: IntWidth, inp: Input) -> Result<(int, Input), Fault> {
        match fixed_dec(w.bytes(), B::big(), inp) {
            Ok((u, rest)) => Ok((untwos(w, u), rest)),
            Err(e) => Err(e),
        }
    }

    proof fn lemma_uint_round_trip(w: IntWidth, v: nat, rest: Input) {
        lemma_max_base(w);
        lemma_fixed_round_trip(v, w.bytes(), B::big(), rest);
    }

    proof fn lemma_uint_dec(w: IntWidth, inp: Input) {
        lemma_max_base(w);
        lemma_fixed_dec(w.bytes(), B::big(), inp);
    }

    proof fn lemma_sint_round_trip(w: IntWidth, v: int, rest: Input) {
        lemma_max_base(w);
        lemma_fixed_round_trip(twos(w, v), w.bytes(), B::big(), rest);
    }

    proof fn lemma_sint_dec(w: IntWidth, inp: Input) {
        lemma_max_base(w);
        lemma_fixed_dec(w.bytes(), B::big(), inp);
    }

    fn is_fixed() -> (b: bool) {
        true
    }

    fn is_zero_copy() -> (b: bool) {
        B::is_big() == NativeEndian::is_big()
    }

    fn size_of_uint(w: IntWidth, v: u128) -> (n: usize) {
        proof {
            lemma_uint_bytes_len(v as nat, w.bytes(), B::big());
        }
        w.size()
    }

    fn encode_uint<W: Writer>(writer: &mut W, w: IntWidth, v: u128) -> (r: WriteResult<()>) {
        let bytes = uint_to_bytes(v, w.size(), B::is_big());
        write_bytes(writer, bytes.as_slice())
    }

    fn decode_uint<'de, R: Reader<'de>>(reader: &mut R, w: IntWidth) -> (r: ReadResult<u128>) {
        read_fixed(reader, w.size(), B::is_big())
    }

    fn size_of_sint(w: IntWidth, v: i128) -> (n: usize) {
        proof {
            lemma_uint_bytes_len(twos(w, v as int), w.bytes(), B::big());
        }
        w.size()
    }

    fn encode_sint<W: Writer>(writer: &mut W, w: IntWidth, v: i128) -> (r: WriteResult<()>) {
        let u: u128 = to_twos(w, v);
        let bytes = uint_to_bytes(u, w.size(), B::is_big());
        write_bytes(writer, bytes.as_slice())
    }

    fn decode_sint<'de, R: Reader<'de>>(reader: &mut R, w: IntWidth) -> (r: ReadResult<i128>) {
        proof {
            lemma_max_base(w);
            lemma_fixed_dec(w.bytes(), B::big(), old(reader).input());
        }
        let u: u128 = read_fixed(reader, w.size(), B::is_big())?;
        Ok(from_twos(w, u))
    }
}

/// The largest integer that stands in one byte.
pub const SINGLE_BYTE_MAX: u8 = 250;

/// The byte in front of an integer of two bytes.
pub const U16_BYTE: u8 = 251;

/// The byte in front of an integer of four bytes.
pub const U32_BYTE: u8 = 252;

/// The byte in front of an integer of eight bytes.
pub const U64_BYTE: u8 = 253;

/// The byte in front of an integer of sixteen bytes.
pub const U128_BYTE: u8 = 254;

/// Small integers take one byte; larger ones a byte that tells the width, and then the fewest of
/// two, four, eight or sixteen bytes that hold them. Signed integers are brought close to zero by
/// [`zigzag`] first.
pub struct VarInt;

/// The bytes of `v` as a variable-width integer.
pub open spec fn varint_bytes(v: nat, big: bool) -> Seq<u8> {
    if v <= SINGLE_BYTE_MAX {
        seq![v as u8]
    } else if v <= 0xffff {
        seq![U16_BYTE] + uint_bytes(v, 2, big)
    } else if v <= 0xffff_ffff {
        seq![U32_BYTE] + uint_bytes(v, 4, big)
    } else if v <= 0xffff_ffff_ffff_ffff {
        seq![U64_BYTE] + uint_bytes(v, 8, big)
    } else {
        seq![U128_BYTE] + uint_bytes(v, 16, big)
    }
}

/// How many bytes follow the first byte `b` of a variable-width integer, in a type of width `w`.
/// There is no answer for a byte that announces an integer wider than the type.
pub open spec fn varint_tail(w: IntWidth, b: u8) -> Option<nat> {
    if b <= SINGLE_BYTE_MAX {
        Some(0)
    } else if b == U16_BYTE {
        Some(2)
    } else if b == U32_BYTE && w.bytes() >= 4 {
        Some(4)
    } else if b == U64_BYTE && w.bytes() >= 8 {
        Some(8)
    } else if b == U128_BYTE && w.bytes() >= 16 {
        Some(16)
    } else {
        None
    }
}

/// Reading a variable-width integer into a type of width `w`.
pub open spec fn varint_dec(w: IntWidth, big: bool, inp: Input) -> Result<
    (nat, Input),
    Fault,
> {
    if inp.bytes.len() == 0 {
        Err(inp.fault(ReadError::Io(crate::io::ReadError::ReadSizeLimit(1))))
    } else {
        let b = inp.bytes[0];
        match varint_tail(w, b) {
            None => Err(inp.skip(1).fault(ReadError::InvalidTagEncoding(b as usize))),
            Some(n) => if n == 0 {
                Ok((b as nat, inp.skip(1)))
            } else {
                fixed_dec(n, big, inp.skip(1))
            },
        }
    }
}

proof fn lemma_varint_round_trip(w: IntWidth, v: nat, big: bool, rest: Input)
    requires
        v <= w.max(),
    ensures
        varint_dec(w, big, rest.prepend(varint_bytes(v, big))) == Ok::<_, Fault>((v, rest)),
        1 <= varint_bytes(v, big).len() <= 17,
{
    lemma_base_16();
    if v <= SINGLE_BYTE_MAX {
        lemma_prepend_skip(rest, varint_bytes(v, big));
    } else {
        let n: nat = if v <= 0xffff {
            2
        } else if v <= 0xffff_ffff {
            4
        } else if v <= 0xffff_ffff_ffff_ffff {
            8
        } else {
            16
        };
        let lead = varint_bytes(v, big)[0];
        assert(varint_bytes(v, big) =~= seq![lead] + uint_bytes(v, n, big));
        lemma_fixed_round_trip(v, n, big, rest);
        let inp = rest.prepend(varint_bytes(v, big));
        assert(inp.skip(1).bytes =~= rest.prepend(uint_bytes(v, n, big)).bytes);
        assert(inp.bytes[0] == lead);
    }
}

proof fn lemma_varint_dec(w: IntWidth, big: bool, inp: Input)
    ensures
        varint_dec(w, big, inp) matches Err(f) ==> f.left.follows(inp),
        varint_dec(w, big, inp) matches Ok((v, rest)) ==> {
            &&& v <= w.max()
            &&& rest.follows(inp)
        },
{
    if inp.bytes.len() > 0 {
        lemma_base_16();
        lemma_skip_follows(inp, 1);
        if let Some(n) = varint_tail(w, inp.bytes[0]) {
            lemma_fixed_dec(n, big, inp.skip(1));
        }
    }
}

fn varint_size(v: u128, big: Ghost<bool>) -> (n: usize)
    ensures
        n == varint_bytes(v as nat, big@).len(),
{
    proof {
        lemma_uint_bytes_len(v as nat, 2, big@);
        lemma_uint_bytes_len(v as nat, 4, big@);
        lemma_uint_bytes_len(v as nat, 8, big@);
        lemma_uint_bytes_len(v as nat, 16, big@);
    }
    if v <= SINGLE_BYTE_MAX as u128 {
        1
    } else if v <= 0xffff {
        3
    } else if v <= 0xffff_ffff {
        5
    } else if v <= 0xffff_ffff_ffff_ffff {
        9
    } else {
        17
    }
}

fn write_varint<W: Writer>(writer: &mut W, v: u128, big: bool) -> (r: WriteResult<()>)
    ensures
        Emit::done(varint_bytes(v as nat, big)).wrote(
            old(writer).output(),
            final(writer).output(),
            r,
        ),
{
    let mut out: Vec<u8> = Vec::new();
    if v <= SINGLE_BYTE_MAX as u128 {
        out.push(v as u8);
    } else {
        let (lead, n): (u8, usize) = if v <= 0xffff {
            (U16_BYTE, 2)
        } else if v <= 0xffff_ffff {
            (U32_BYTE, 4)
        } else if v <= 0xffff_ffff_ffff_ffff {
            (U64_BYTE, 8)
        } else {
            (U128_BYTE, 16)
        };
        out.push(lead);
        let mut digits = uint_to_bytes(v, n, big);
        out.append(&mut digits);
    }
    proof {
        assert(out@ =~= varint_bytes(v as nat, big));
    }
    write_bytes(writer, out.as_slice())
}

fn read_varint<'de, R: Reader<'de>>(reader: &mut R, w: IntWidth, big: bool) -> (r: ReadResult<u128>)
    ensures
        final(reader).input().follows(old(reader).input()),
        match varint_dec(w, big, old(reader).input()) {
            Ok((v, rest)) => {
                &&& r is Ok
                &&& r->Ok_0 == v
                &&& final(reader).input() == rest
            },
            Err(f) => {
                &&& r == Err::<u128, ReadError>(f.err)
                &&& final(reader).input() == f.left
            },
        },
{
    proof {
        if old(reader).input().bytes.len() > 0 {
            lemma_skip_follows(old(reader).input(), 1);
        }
    }
    let b: u8 = match reader.take_byte() {
        Ok(b) => b,
        Err(e) => {
            return Err(ReadError::Io(e));
        },
    };
    if b <= SINGLE_BYTE_MAX {
        return Ok(b as u128);
    }
    let n: usize = if b == U16_BYTE {
        2
    } else if b == U32_BYTE && w.size() >= 4 {
        4
    } else if b == U64_BYTE && w.size() >= 8 {
        8
    } else if b == U128_BYTE && w.size() >= 16 {
        16
    } else {
        return Err(invalid_tag_encoding(b as usize));
    };
    read_fixed(reader, n, big)
}

impl<B: ByteOrder> IntEncoding<B> for VarInt {
    open spec fn fixed() -> bool {
        false
    }

    open spec fn zero_copy() -> bool {
        false
    }

    open spec fn uint_bytes(w: IntWidth, v: nat) -> Seq<u8> {
        varint_bytes(v, B::big())
    }

    open spec fn uint_dec(w: IntWidth, inp: Input) -> Result<(nat, Input), Fault> {
        varint_dec(w, B::big(), inp)
    }

    open spec fn sint_bytes(w: IntWidth, v: int) -> Seq<u8> {
        varint_bytes(zigzag(v), B::big())
    }

    open spec fn sint_dec(w: IntWidth, inp: Input) -> Result<(int, Input), Fault> {
        match varint_dec(w, B::big(), inp) {
            Ok((u, rest)) => Ok((unzigzag(u), rest)),
            Err(e) => Err(e),
        }
    }

    proof fn lemma_uint_round_trip(w: IntWidth, v: nat, rest: Input) {
        lemma_varint_round_trip(w, v, B::big(), rest);
    }

    proof fn lemma_uint_dec(w: IntWidth, inp: Input) {
        lemma_varint_dec(w, B::big(), inp);
    }

    proof fn lemma_sint_round_trip(w: IntWidth, v: int, rest: Input) {
        lemma_varint_round_trip(w, zigzag(v), B::big(), rest);
    }

    proof fn lemma_sint_dec(w: IntWidth, inp: Input) {
        lemma_varint_dec(w, B::big(), inp);
    }

    fn is_fixed() -> (b: bool) {
        false
    }

    fn is_zero_copy() -> (b: bool) {
        false
    }

    fn size_of_uint(w: IntWidth, v: u128) -> (n: usize) {
        varint_size(v, Ghost(B::big()))
    }

    fn encode_uint<W: Writer>(writer: &mut W, w: IntWidth, v: u128) -> (r: WriteResult<()>) {
        write_varint(writer, v, B::is_big())
    }

    fn decode_uint<'de, R: Reader<'de>>(reader: &mut R, w: IntWidth) -> (r: ReadResult<u128>) {
        read_varint(reader, w, B::is_big())
    }

    fn size_of_sint(w: IntWidth, v: i128) -> (n: usize) {
        varint_size(to_zigzag(w, v), Ghost(B::big()))
    }

    fn encode_sint<W: Writer>(writer: &mut W, w: IntWidth, v: i128) -> (r: WriteResult<()>) {
        write_varint(writer, to_zigzag(w, v), B::is_big())
    }

    fn decode_sint<'de, R: Reader<'de>>(reader: &mut R, w: IntWidth) -> (r: ReadResult<i128>) {
        proof {
            lemma_varint_dec(w, B::big(), old(reader).input());
        }
        let u: u128 = read_varint(reader, w, B::is_big())?;
        Ok(from_zigzag(w, u))
    }
}

} // verus!
