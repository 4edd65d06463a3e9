//! How the length of a sequence is laid out.
use crate::config::ConfigCore;
use crate::error::{
    pointer_sized_decode_error, preallocation_size_limit, write_length_encoding_overflow,
    PreallocationError, ReadError, ReadResult, WriteError, WriteResult,
};
use crate::io::{write_bytes, Reader, Writer};
use crate::model::{
    lemma_prepend_skip, lemma_skip_follows, lemma_wrote_fail, Emit, Fault, Input, Output,
};
use crate::schema::int_encoding::{FixInt, IntEncoding, IntWidth};
use core::marker::PhantomData;
use vstd::layout;
use vstd::prelude::*;

verus! {

broadcast use {
    crate::model::lemma_follows_transitive,
    crate::model::lemma_follows_reflexive,
};

/// The memory that `len` values of `T` ask for. A type without size counts as one byte.
pub open spec fn prealloc_needed<T>(len: nat) -> nat {
    if layout::size_of::<T>() <= 1 {
        len
    } else {
        len * layout::size_of::<T>()
    }
}

/// What is reported as needed: the memory that is needed, or the largest number there is.
pub open spec fn prealloc_reported<T>(len: nat) -> usize {
    if prealloc_needed::<T>(len) <= usize::MAX {
        prealloc_needed::<T>(len) as usize
    } else {
        usize::MAX
    }
}

/// Whether `len` values of `T` stay within the preallocation limit of `C`.
pub open spec fn prealloc_ok<C: ConfigCore, T>(len: nat) -> bool {
    C::prealloc_limit() matches Some(limit) ==> prealloc_reported::<T>(len) <= limit
}

/// Fails if `len` values of `T` ask for more memory than `C` allows.
pub fn prealloc_check<C: ConfigCore, T>(len: usize) -> (r: Result<(), PreallocationError>)
    ensures
        r is Ok <==> prealloc_ok::<C, T>(len as nat),
        r matches Err(e) ==> {
            &&& e.needed() == prealloc_reported::<T>(len as nat)
            &&& Some(e.limit()) == C::prealloc_limit()
        },
{
    match C::preallocation_size_limit() {
        None => Ok(()),
        Some(limit) => {
            let size: usize = core::mem::size_of::<T>();
            let unit: usize = if size == 0 {
                1
            } else {
                size
            };
            assert(len * 1 == len);
            let needed: usize = match len.checked_mul(unit) {
                Some(n) => n,
                None => usize::MAX,
            };
            if needed > limit {
                Err(preallocation_size_limit(needed, limit))
            } else {
                Ok(())
            }
        },
    }
}

/// The error of a write of `len` values of `T` that ask for more memory than `C` allows.
pub open spec fn prealloc_write_error<C: ConfigCore, T>(len: nat) -> WriteError {
    WriteError::PreallocationSizeLimit {
        needed: prealloc_reported::<T>(len),
        limit: C::prealloc_limit()->Some_0,
    }
}

/// The error of a read of `len` values of `T` that ask for more memory than `C` allows.
pub open spec fn prealloc_read_error<C: ConfigCore, T>(len: nat) -> ReadError {
    ReadError::PreallocationSizeLimit {
        needed: prealloc_reported::<T>(len),
        limit: C::prealloc_limit()->Some_0,
    }
}

/// What holds of a write of `len` values of `T` that found the output `pre`, left the output `post`
/// and returned `r`: if they ask for more memory than `C` allows, that is the error, whatever room
/// there is, and nothing is written.
pub open spec fn limit_kept<C: ConfigCore, T>(
    len: nat,
    pre: Output,
    post: Output,
    r: WriteResult<()>,
) -> bool {
    !prealloc_ok::<C, T>(len) ==> {
        &&& r == Err::<(), WriteError>(prealloc_write_error::<C, T>(len))
        &&& post == pre
    }
}

/// A layout of the length of a sequence, under the configuration `C`.
pub trait SeqLen<C: ConfigCore> {
    /// Writing the length `len`.
    spec fn len_emit(len: nat) -> Emit;

    /// Reading a length.
    spec fn len_dec(inp: Input) -> Result<(nat, Input), Fault>;

    /// A length that cannot be written leaves no bytes.
    proof fn lemma_len_emit(len: nat)
        ensures
            Self::len_emit(len).consistent(),
            Self::len_emit(len).err is Some ==> Self::len_emit(len).weight == 0,
            !Self::len_emit(len).over_limit(),
            Self::len_emit(len).weight <= 17,
    ;

    /// Reading gives back the length that was written.
    proof fn lemma_len_round_trip(len: nat, rest: Input)
        requires
            len <= usize::MAX,
            Self::len_emit(len).ok(),
        ensures
            Self::len_dec(rest.prepend(Self::len_emit(len).bytes)) == Ok::<_, Fault>(
                (len, rest),
            ),
    ;

    /// A length that was read counts something that could be in memory.
    proof fn lemma_len_dec(inp: Input)
        ensures
            Self::len_dec(inp) matches Err(f) ==> f.left.follows(inp),
            Self::len_dec(inp) matches Ok((len, rest)) ==> {
                &&& len <= usize::MAX
                &&& rest.follows(inp)
            },
    ;

    /// Reads a length.
    fn read<'de, R: Reader<'de>>(reader: &mut R) -> (r: ReadResult<usize>)
        ensures
            final(reader).input().follows(old(reader).input()),
            match Self::len_dec(old(reader).input()) {
                Ok((len, rest)) => {
                    &&& r is Ok
                    &&& r->Ok_0 == len
                    &&& final(reader).input() == rest
                },
                Err(f) => {
                    &&& r == Err::<usize, ReadError>(f.err)
                    &&& final(reader).input() == f.left
                },
            },
    ;

    /// Writes a length.
    fn write<W: Writer>(writer: &mut W, len: usize) -> (r: WriteResult<()>)
        ensures
            Self::len_emit(len as nat).wrote(old(writer).output(), final(writer).output(), r),
    ;

    /// The number of bytes of a length.
    fn write_bytes_needed(len: usize) -> (r: WriteResult<usize>)
        ensures
            match Self::len_emit(len as nat).err {
                Some(e) => r == Err::<usize, WriteError>(e),
                None => r is Ok && r->Ok_0 == Self::len_emit(len as nat).weight,
            },
    ;

    /// Fails if `len` values of `T` ask for more memory than `C` allows.
    fn prealloc_check<T>(len: usize) -> (r: Result<(), PreallocationError>)
        ensures
            r is Ok <==> prealloc_ok::<C, T>(len as nat),
            r matches Err(e) ==> {
                &&& e.needed() == prealloc_reported::<T>(len as nat)
                &&& Some(e.limit()) == C::prealloc_limit()
            },
    {
        prealloc_check::<C, T>(len)
    }

    /// Reads the length of a sequence of `T`, and checks the memory it asks for.
    fn read_prealloc_check<'de, T, R: Reader<'de>>(reader: &mut R) -> (r: ReadResult<usize>)
        ensures
            final(reader).input().follows(old(reader).input()),
            match Self::len_dec(old(reader).input()) {
                Ok((len, rest)) => if prealloc_ok::<C, T>(len) {
                    &&& r is Ok
                    &&& r->Ok_0 == len
                    &&& final(reader).input() == rest
                } else {
                    &&& r == Err::<usize, ReadError>(prealloc_read_error::<C, T>(len))
                    &&& final(reader).input() == rest
                },
                Err(f) => {
                    &&& r == Err::<usize, ReadError>(f.err)
                    &&& final(reader).input() == f.left
                },
            },
    {
        let len: usize = Self::read(reader)?;
        match Self::prealloc_check::<T>(len) {
            Ok(()) => Ok(len),
            Err(e) => Err(e.into_read_error()),
        }
    }

    /// The number of bytes of the length of a sequence of `T`, if its memory may be asked for.
    fn write_bytes_needed_prealloc_check<T>(len: usize) -> (r: WriteResult<usize>)
        ensures
            !prealloc_ok::<C, T>(len as nat) ==> r == Err::<usize, WriteError>(
                prealloc_write_error::<C, T>(len as nat),
            ),
            prealloc_ok::<C, T>(len as nat) ==> match Self::len_emit(len as nat).err {
                Some(e) => r == Err::<usize, WriteError>(e),
                None => r is Ok && r->Ok_0 == Self::len_emit(len as nat).weight,
            },
    {
        match Self::prealloc_check::<T>(len) {
            Ok(()) => Self::write_bytes_needed(len),
            Err(e) => Err(e.into_write_error()),
        }
    }
}

/// Reading the length of a sequence of `T`, with a check of the memory it asks for.
pub open spec fn len_dec_checked<L: SeqLen<C> + ?Sized, C: ConfigCore, T>(inp: Input) -> Result<
    (nat, Input),
    Fault,
> {
    match L::len_dec(inp) {
        Ok((len, rest)) => if prealloc_ok::<C, T>(len) {
            Ok((len, rest))
        } else {
            Err(rest.fault(prealloc_read_error::<C, T>(len)))
        },
        Err(e) => Err(e),
    }
}

/// Writing the length of a sequence of `T`, with a check of the memory it asks for.
pub open spec fn len_emit_checked<L: SeqLen<C> + ?Sized, C: ConfigCore, T>(len: nat) -> Emit {
    if prealloc_ok::<C, T>(len) {
        L::len_emit(len)
    } else {
        Emit::fail(prealloc_write_error::<C, T>(len), L::len_emit(len).weight)
    }
}

/// An unsigned integer type that can hold a length or a tag.
pub trait LenInt {
    /// Its width, or `None` for a single byte.
    spec fn width() -> Option<IntWidth>;

    /// How its largest value is written.
    spec fn max_name() -> &'static str;

    /// See [`LenInt::width`].
    fn int_width() -> (w: Option<IntWidth>)
        ensures
            w == Self::width(),
    ;

    /// See [`LenInt::max_name`].
    fn int_max_name() -> (s: &'static str)
        ensures
            s == Self::max_name(),
    ;
}

impl LenInt for u8 {
    open spec fn width() -> Option<IntWidth> {
        None
    }

    open spec fn max_name() -> &'static str {
        "u8::MAX"
    }

    fn int_width() -> (w: Option<IntWidth>) {
        None
    }

    fn int_max_name() -> (s: &'static str) {
        "u8::MAX"
    }
}

impl LenInt for u16 {
    open spec fn width() -> Option<IntWidth> {
        Some(IntWidth::W16)
    }

    open spec fn max_name() -> &'static str {
        "u16::MAX"
    }

    fn int_width() -> (w: Option<IntWidth>) {
        Some(IntWidth::W16)
    }

    fn int_max_name() -> (s: &'static str) {
        "u16::MAX"
    }
}

impl LenInt for u32 {
    open spec fn width() -> Option<IntWidth> {
        Some(IntWidth::W32)
    }

    open spec fn max_name() -> &'static str {
        "u32::MAX"
    }

    fn int_width() -> (w: Option<IntWidth>) {
        Some(IntWidth::W32)
    }

    fn int_max_name() -> (s: &'static str) {
        "u32::MAX"
    }
}

impl LenInt for u64 {
    open spec fn width() -> Option<IntWidth> {
        Some(IntWidth::W64)
    }

    open spec fn max_name() -> &'static str {
        "u64::MAX"
    }

    fn int_width() -> (w: Option<IntWidth>) {
        Some(IntWidth::W64)
    }

    fn int_max_name() -> (s: &'static str) {
        "u64::MAX"
    }
}

impl LenInt for u128 {
    open spec fn width() -> Option<IntWidth> {
        Some(IntWidth::W128)
    }

    open spec fn max_name() -> &'static str {
        "u128::MAX"
    }

    fn int_width() -> (w: Option<IntWidth>) {
        Some(IntWidth::W128)
    }

    fn int_max_name() -> (s: &'static str) {
        "u128::MAX"
    }
}

/// The largest integer of the given width, where `None` is a single byte.
pub open spec fn width_max(w: Option<IntWidth>) -> nat {
    match w {
        None => 0xff,
        Some(w) => w.max(),
    }
}

/// The bytes of an integer of the given width in the layout `I`.
pub open spec fn width_bytes<I: IntEncoding<C::ByteOrder>, C: ConfigCore>(
    w: Option<IntWidth>,
    v: nat,
) -> Seq<u8> {
    match w {
        None => seq![v as u8],
        Some(w) => I::uint_bytes(w, v),
    }
}

/// Reading an integer of the given width in the layout `I`.
pub open spec fn width_dec<I: IntEncoding<C::ByteOrder>, C: ConfigCore>(
    w: Option<IntWidth>,
    inp: Input,
) -> Result<(nat, Input), Fault> {
    match w {
        None => if inp.bytes.len() == 0 {
            Err(inp.fault(ReadError::Io(crate::io::ReadError::ReadSizeLimit(1))))
        } else {
            Ok((inp.bytes[0] as nat, inp.skip(1)))
        },
        Some(w) => I::uint_dec(w, inp),
    }
}

pub proof fn lemma_width_round_trip<I: IntEncoding<C::ByteOrder>, C: ConfigCore>(
    w: Option<IntWidth>,
    v: nat,
    rest: Input,
)
    requires
        v <= width_max(w),
    ensures
        width_dec::<I, C>(w, rest.prepend(width_bytes::<I, C>(w, v))) == Ok::<_, Fault>(
            (v, rest),
        ),
        width_bytes::<I, C>(w, v).len() <= 17,
{
    match w {
        None => {
            lemma_prepend_skip(rest, seq![v as u8]);
        },
        Some(w) => {
            I::lemma_uint_round_trip(w, v, rest);
        },
    }
}

pub proof fn lemma_width_dec<I: IntEncoding<C::ByteOrder>, C: ConfigCore>(
    w: Option<IntWidth>,
    inp: Input,
)
    ensures
        width_dec::<I, C>(w, inp) matches Err(f) ==> f.left.follows(inp),
        width_dec::<I, C>(w, inp) matches Ok((v, rest)) ==> {
            &&& v <= width_max(w)
            &&& rest.follows(inp)
        },
{
    match w {
        None => {
            if inp.bytes.len() > 0 {
                lemma_skip_follows(inp, 1);
            }
        },
        Some(w) => {
            I::lemma_uint_dec(w, inp);
        },
    }
}

/// The largest integer of the given width.
pub fn largest_of_width(w: Option<IntWidth>) -> (n: u128)
    ensures
        n == width_max(w),
{
    match w {
        None => 0xff,
        Some(w) => w.largest(),
    }
}

/// The number of bytes of an integer of the given width.
pub fn size_of_width<I: IntEncoding<C::ByteOrder>, C: ConfigCore>(
    w: Option<IntWidth>,
    v: u128,
) -> (n: usize)
    requires
        v <= width_max(w),
    ensures
        n == width_bytes::<I, C>(w, v as nat).len(),
{
    match w {
        None => 1,
        Some(w) => I::size_of_uint(w, v),
    }
}

/// Writes an integer of the given width.
pub fn write_width<I: IntEncoding<C::ByteOrder>, C: ConfigCore, W: Writer>(
    writer: &mut W,
    w: Option<IntWidth>,
    v: u128,
) -> (r: WriteResult<()>)
    requires
        v <= width_max(w),
    ensures
        Emit::done(width_bytes::<I, C>(w, v as nat)).wrote(
            old(writer).output(),
            final(writer).output(),
            r,
        ),
{
    match w {
        None => {
            let mut one: Vec<u8> = Vec::new();
            one.push(v as u8);
            proof {
                assert(one@ =~= seq![v as u8]);
            }
            write_bytes(writer, one.as_slice())
        },
        Some(w) => I::encode_uint(writer, w, v),
    }
}

/// Reads an integer of the given width.
pub fn read_width<'de, I: IntEncoding<C::ByteOrder>, C: ConfigCore, R: Reader<'de>>(
    reader: &mut R,
    w: Option<IntWidth>,
) -> (r: ReadResult<u128>)
    ensures
        final(reader).input().follows(old(reader).input()),
        match width_dec::<I, C>(w, old(reader).input()) {
            Ok((v, rest)) => {
                &&& r is Ok
                &&& r->Ok_0 == v
                &&& final(reader).input() == rest
            },
            Err(f) => {
                &&& r == Err::<u128, ReadError>(f.err)
                &&& final(reader).input() == f.left
            },
        },
{
    match w {
        None => {
            proof {
                lemma_width_dec::<I, C>(w, old(reader).input());
            }
            match reader.take_byte() {
                Ok(b) => Ok(b as u128),
                Err(e) => Err(ReadError::Io(e)),
            }
        },
        Some(w) => I::decode_uint(reader, w),
    }
}

/// Writing a length as an integer of type `T` in the layout `I`.
pub open spec fn int_len_emit<T: LenInt, I: IntEncoding<C::ByteOrder>, C: ConfigCore>(
    len: nat,
) -> Emit {
    if len <= width_max(T::width()) {
        Emit::done(width_bytes::<I, C>(T::width(), len))
    } else {
        Emit::fail(WriteError::LengthEncodingOverflow(T::max_name()), 0)
    }
}

/// Reading a length as an integer of type `T` in the layout `I`.
pub open spec fn int_len_dec<T: LenInt, I: IntEncoding<C::ByteOrder>, C: ConfigCore>(
    inp: Input,
) -> Result<(nat, Input), Fault> {
    match width_dec::<I, C>(T::width(), inp) {
        Ok((len, rest)) => if len <= usize::MAX {
            Ok((len, rest))
        } else {
            Err(rest.fault(ReadError::PointerSizedReadError))
        },
        Err(e) => Err(e),
    }
}

fn read_int_len<'de, T: LenInt, I: IntEncoding<C::ByteOrder>, C: ConfigCore, R: Reader<'de>>(
    reader: &mut R,
) -> (r: ReadResult<usize>)
    ensures
        final(reader).input().follows(old(reader).input()),
        match int_len_dec::<T, I, C>(old(reader).input()) {
            Ok((len, rest)) => {
                &&& r is Ok
                &&& r->Ok_0 == len
                &&& final(reader).input() == rest
            },
            Err(f) => {
                &&& r == Err::<usize, ReadError>(f.err)
                &&& final(reader).input() == f.left
            },
        },
{
    let v: u128 = read_width::<I, C, R>(reader, T::int_width())?;
    if v <= usize::MAX as u128 {
        Ok(v as usize)
    } else {
        Err(pointer_sized_decode_error())
    }
}

fn write_int_len<T: LenInt, I: IntEncoding<C::ByteOrder>, C: ConfigCore, W: Writer>(
    writer: &mut W,
    len: usize,
) -> (r: WriteResult<()>)
    ensures
        int_len_emit::<T, I, C>(len as nat).wrote(
            old(writer).output(),
            final(writer).output(),
            r,
        ),
{
    let w = T::int_width();
    if len as u128 > largest_of_width(w) {
        proof {
            lemma_wrote_fail(
                WriteError::LengthEncodingOverflow(T::max_name()),
                0,
                old(writer).output(),
            );
        }
        return Err(write_length_encoding_overflow(T::int_max_name()));
    }
    write_width::<I, C, W>(writer, w, len as u128)
}

fn int_len_needed<T: LenInt, I: IntEncoding<C::ByteOrder>, C: ConfigCore>(
    len: usize,
) -> (r: WriteResult<usize>)
    ensures
        match int_len_emit::<T, I, C>(len as nat).err {
            Some(e) => r == Err::<usize, WriteError>(e),
            None => r is Ok && r->Ok_0 == int_len_emit::<T, I, C>(len as nat).weight,
        },
{
    let w = T::int_width();
    if len as u128 > largest_of_width(w) {
        return Err(write_length_encoding_overflow(T::int_max_name()));
    }
    Ok(size_of_width::<I, C>(w, len as u128))
}

proof fn lemma_int_len_emit<T: LenInt, I: IntEncoding<C::ByteOrder>, C: ConfigCore>(len: nat)
    ensures
        int_len_emit::<T, I, C>(len).consistent(),
        int_len_emit::<T, I, C>(len).err is Some ==> int_len_emit::<T, I, C>(len).weight == 0,
        int_len_emit::<T, I, C>(len).weight <= 17,
{
    if len <= width_max(T::width()) {
        lemma_width_round_trip::<I, C>(
            T::width(),
            len,
            Input { bytes: Seq::empty(), backing: false },
        );
    }
}

/// The length as an integer of type `T`, laid out like any other integer.
pub struct UseIntLen<T>(PhantomData<T>);

/// The length as an integer of type `T`, in as many bytes as `T` has.
pub struct FixIntLen<T>(PhantomData<T>);

/// The length as an integer of eight bytes, laid out like any other integer.
pub type BincodeLen = UseIntLen<u64>;

impl<C: ConfigCore, T: LenInt> SeqLen<C> for UseIntLen<T> {
    open spec fn len_emit(len: nat) -> Emit {
        int_len_emit::<T, C::IntEncoding, C>(len)
    }

    open spec fn len_dec(inp: Input) -> Result<(nat, Input), Fault> {
        int_len_dec::<T, C::IntEncoding, C>(inp)
    }

    proof fn lemma_len_emit(len: nat) {
        lemma_int_len_emit::<T, C::IntEncoding, C>(len);
    }

    proof fn lemma_len_round_trip(len: nat, rest: Input) {
        lemma_width_round_trip::<C::IntEncoding, C>(T::width(), len, rest);
    }

    proof fn lemma_len_dec(inp: Input) {
        lemma_width_dec::<C::IntEncoding, C>(T::width(), inp);
    }

    fn read<'de, R: Reader<'de>>(reader: &mut R) -> (r: ReadResult<usize>) {
        read_int_len::<T, C::IntEncoding, C, R>(reader)
    }

    fn write<W: Writer>(writer: &mut W, len: usize) -> (r: WriteResult<()>) {
        write_int_len::<T, C::IntEncoding, C, W>(writer, len)
    }

    fn write_bytes_needed(len: usize) -> (r: WriteResult<usize>) {
        int_len_needed::<T, C::IntEncoding, C>(len)
    }
}

impl<C: ConfigCore, T: LenInt> SeqLen<C> for FixIntLen<T> {
    open spec fn len_emit(len: nat) -> Emit {
        int_len_emit::<T, FixInt, C>(len)
    }

    open spec fn len_dec(inp: Input) -> Result<(nat, Input), Fault> {
        int_len_dec::<T, FixInt, C>(inp)
    }

    proof fn lemma_len_emit(len: nat) {
        lemma_int_len_emit::<T, FixInt, C>(len);
    }

    proof fn lemma_len_round_trip(len: nat, rest: Input) {
        lemma_width_round_trip::<FixInt, C>(T::width(), len, rest);
    }

    proof fn lemma_len_dec(inp: Input) {
        lemma_width_dec::<FixInt, C>(T::width(), inp);
    }

    fn read<'de, R: Reader<'de>>(reader: &mut R) -> (r: ReadResult<usize>) {
        read_int_len::<T, FixInt, C, R>(reader)
    }

    fn write<W: Writer>(writer: &mut W, len: usize) -> (r: WriteResult<()>) {
        write_int_len::<T, FixInt, C, W>(writer, len)
    }

    fn write_bytes_needed(len: usize) -> (r: WriteResult<usize>) {
        int_len_needed::<T, FixInt, C>(len)
    }
}

/// An integer type stands for [`UseIntLen`] of it.
impl<C: ConfigCore, T: LenInt> SeqLen<C> for T {
    open spec fn len_emit(len: nat) -> Emit {
        int_len_emit::<T, C::IntEncoding, C>(len)
    }

    open spec fn len_dec(inp: Input) -> Result<(nat, Input), Fault> {
        int_len_dec::<T, C::IntEncoding, C>(inp)
    }

    proof fn lemma_len_emit(len: nat) {
        lemma_int_len_emit::<T, C::IntEncoding, C>(len);
    }

    proof fn lemma_len_round_trip(len: nat, rest: Input) {
        lemma_width_round_trip::<C::IntEncoding, C>(T::width(), len, rest);
    }

    proof fn lemma_len_dec(inp: Input) {
        lemma_width_dec::<C::IntEncoding, C>(T::width(), inp);
    }

    fn read<'de, R: Reader<'de>>(reader: &mut R) -> (r: ReadResult<usize>) {
        read_int_len::<T, C::IntEncoding, C, R>(reader)
    }

    fn write<W: Writer>(writer: &mut W, len: usize) -> (r: WriteResult<()>) {
        write_int_len::<T, C::IntEncoding, C, W>(writer, len)
    }

    fn write_bytes_needed(len: usize) -> (r: WriteResult<usize>) {
        int_len_needed::<T, C::IntEncoding, C>(len)
    }
}

} // verus!
