//! Values that are used where they stand in the input.
use crate::config::ConfigCore;
use crate::error::{unaligned_pointer_read, ReadError, ReadResult};
use crate::io::Reader;
use crate::len::SeqLen;
use crate::model::{lemma_prepend_skip, lemma_skip_follows, Fault, Input};
use crate::schema::elems::emit_all;
use crate::schema::impls::text::lemma_emit_bytes;
use crate::schema::{Model, RoundTrip, SchemaRead, TypeMeta};
use vstd::prelude::*;

verus! {

broadcast use {
    crate::model::lemma_follows_transitive,
    crate::model::lemma_follows_reflexive,
};

/// `<[u8]>::first_chunk`: the first `N` bytes as an array, if there are as many.
#[verifier::external_body]
fn first_chunk<'a, const N: usize>(bytes: &'a [u8]) -> (r: Option<&'a [u8; N]>)
    ensures
        r is Some <==> N <= bytes@.len(),
        r matches Some(a) ==> a@ == bytes@.take(N as int),
{
    bytes.first_chunk::<N>()
}

/// `<[u8]>::first_chunk_mut`: the first `N` bytes as an array that can be written through, if
/// there are as many. The bytes after them stay as they are.
#[verifier::external_body]
fn first_chunk_mut<'a, const N: usize>(bytes: &'a mut [u8]) -> (r: Option<&'a mut [u8; N]>)
    ensures
        r is Some <==> N <= old(bytes)@.len(),
        r matches Some(a) ==> {
            &&& a@ == old(bytes)@.take(N as int)
            &&& final(bytes)@ == final(a)@ + old(bytes)@.skip(N as int)
        },
        r is None ==> final(bytes)@ == old(bytes)@,
{
    bytes.first_chunk_mut::<N>()
}

/// The bytes of the value number `i` among values of `size` bytes each.
pub open spec fn chunk(bytes: Seq<u8>, size: nat, i: int) -> Seq<u8> {
    bytes.subrange(i * size, (i + 1) * size)
}

/// `<[u8]>::as_chunks`: the bytes as arrays of `N`, and those at the end that fill no array.
#[verifier::external_body]
fn as_chunks<'a, const N: usize>(bytes: &'a [u8]) -> (r: (&'a [[u8; N]], &'a [u8]))
    requires
        N > 0,
    ensures
        r.0@.len() == bytes@.len() / (N as nat),
        forall|i: int|
            0 <= i < r.0@.len() ==> (#[trigger] r.0@[i])@ == chunk(bytes@, N as nat, i),
        r.1@ == bytes@.skip(r.0@.len() * N),
{
    bytes.as_chunks::<N>()
}

/// `<[u8]>::as_chunks_mut`: the bytes as arrays of `N`, and those at the end that fill no array,
/// all to be written through. Neither slice can change its length.
#[verifier::external_body]
fn as_chunks_mut<'a, const N: usize>(bytes: &'a mut [u8]) -> (r: (
    &'a mut [[u8; N]],
    &'a mut [u8],
))
    requires
        N > 0,
    ensures
        r.0@.len() == old(bytes)@.len() / (N as nat),
        forall|i: int|
            0 <= i < r.0@.len() ==> (#[trigger] r.0@[i])@ == chunk(old(bytes)@, N as nat, i),
        r.1@ == old(bytes)@.skip(r.0@.len() * N),
        final(bytes)@.len() == old(bytes)@.len(),
        final(r.0)@.len() == r.0@.len(),
        forall|i: int|
            0 <= i < r.0@.len() ==> chunk(final(bytes)@, N as nat, i) == (
            #[trigger] final(r.0)@[i])@,
        final(bytes)@.skip(r.0@.len() * N) == final(r.1)@,
{
    bytes.as_chunks_mut::<N>()
}

/// `<[T]>::repeat`, of one array of no bytes: a vector that holds it `n` times. Arrays of no bytes
/// take no memory, so there is none to run out of.
#[verifier::external_body]
fn repeat_empty<const N: usize>(one: &[[u8; N]], n: usize) -> (v: Vec<[u8; N]>)
    requires
        N == 0,
        one@.len() == 1,
    ensures
        v@ == Seq::new(n as nat, |i: int| one@[0]),
{
    one.repeat(n)
}

/// `Vec::leak`: the contents of a vector, which are never freed.
#[verifier::external_body]
fn leak<'a, const N: usize>(v: Vec<[u8; N]>) -> (r: &'a mut [[u8; N]])
    ensures
        r@ == v@,
{
    v.leak()
}

/// `len` arrays of no bytes.
fn empty_arrays<'a, const N: usize>(len: usize) -> (r: &'a mut [[u8; N]])
    requires
        N == 0,
    ensures
        r@.len() == len,
{
    let no_bytes: [u8; 0] = [];
    match first_chunk::<N>(no_bytes.as_slice()) {
        Some(empty) => {
            let one: [[u8; N]; 1] = [*empty];
            leak(repeat_empty::<N>(one.as_slice(), len))
        },
        None => {
            assert(false);
            leak(Vec::new())
        },
    }
}

/// Types whose values in memory are the bytes of their layout, whatever those are.
pub trait ZeroCopy: Model + Sized {
    /// The number of bytes of a value.
    spec fn byte_len() -> usize;

    /// The bytes of this value.
    spec fn bytes_of(self) -> Seq<u8>;

    /// The value that the bytes `bytes` are.
    spec fn val_at(bytes: Seq<u8>) -> Self::Val;

    /// The number of bytes of a value.
    fn size() -> (n: usize)
        ensures
            n == Self::byte_len(),
    ;

    /// The value at the front of `bytes`, in place, if they are long enough.
    fn front<'de>(bytes: &'de [u8]) -> (r: Option<&'de Self>)
        ensures
            r is Some <==> Self::byte_len() <= bytes@.len(),
            r matches Some(v) ==> v.bytes_of() == bytes@.take(Self::byte_len() as int),
    ;

    /// The value at the front of `bytes`, to be written through, if they are long enough.
    fn front_mut<'de>(bytes: &'de mut [u8]) -> (r: Option<&'de mut Self>)
        ensures
            r is Some <==> Self::byte_len() <= old(bytes)@.len(),
            r matches Some(v) ==> {
                &&& v.bytes_of() == old(bytes)@.take(Self::byte_len() as int)
                &&& final(bytes)@ == final(v).bytes_of() + old(bytes)@.skip(
                    Self::byte_len() as int,
                )
            },
            r is None ==> final(bytes)@ == old(bytes)@,
    ;

    /// The `len` values of which `bytes` are the bytes, in place.
    fn cast_slice<'de>(bytes: &'de [u8], len: usize) -> (r: &'de [Self])
        requires
            bytes@.len() == len * Self::byte_len(),
        ensures
            r@.len() == len,
            forall|i: int|
                0 <= i < len ==> (#[trigger] r@[i]).bytes_of() == chunk(
                    bytes@,
                    Self::byte_len() as nat,
                    i,
                ),
    ;

    /// The `len` values of which `bytes` are the bytes, to be written through.
    fn cast_slice_mut<'de>(bytes: &'de mut [u8], len: usize) -> (r: &'de mut [Self])
        requires
            old(bytes)@.len() == len * Self::byte_len(),
        ensures
            r@.len() == len,
            forall|i: int|
                0 <= i < len ==> (#[trigger] r@[i]).bytes_of() == chunk(
                    old(bytes)@,
                    Self::byte_len() as nat,
                    i,
                ),
            final(r)@.len() == len ==> {
                &&& final(bytes)@.len() == old(bytes)@.len()
                &&& forall|i: int|
                    0 <= i < len ==> chunk(final(bytes)@, Self::byte_len() as nat, i) == (
                    #[trigger] final(r)@[i]).bytes_of()
            },
    ;

    /// A reference to the value that is at the front of `bytes`.
    fn from_bytes<'de>(bytes: &'de [u8]) -> (r: ReadResult<&'de Self>)
        ensures
            Self::byte_len() <= bytes@.len() ==> {
                &&& r is Ok
                &&& r->Ok_0.bytes_of() == bytes@.take(Self::byte_len() as int)
            },
            Self::byte_len() > bytes@.len() ==> {
                &&& r is Err
                &&& r->Err_0 == ReadError::Io(
                    crate::io::ReadError::ReadSizeLimit(Self::byte_len()),
                )
            },
    {
        match Self::front(bytes) {
            Some(v) => Ok(v),
            None => Err(ReadError::Io(crate::io::ReadError::ReadSizeLimit(Self::size()))),
        }
    }

    /// A mutable reference to the value that is at the front of `bytes`. What is written through it
    /// is written to `bytes`.
    fn from_bytes_mut<'de>(bytes: &'de mut [u8]) -> (r: ReadResult<&'de mut Self>)
        ensures
            Self::byte_len() <= old(bytes)@.len() ==> {
                &&& r is Ok
                &&& r->Ok_0.bytes_of() == old(bytes)@.take(Self::byte_len() as int)
                &&& final(bytes)@ == final(r->Ok_0).bytes_of() + old(bytes)@.skip(
                    Self::byte_len() as int,
                )
            },
            Self::byte_len() > old(bytes)@.len() ==> {
                &&& r is Err
                &&& r->Err_0 == ReadError::Io(
                    crate::io::ReadError::ReadSizeLimit(Self::byte_len()),
                )
                &&& final(bytes)@ == old(bytes)@
            },
    {
        match Self::front_mut(bytes) {
            Some(v) => Ok(v),
            None => Err(ReadError::Io(crate::io::ReadError::ReadSizeLimit(Self::size()))),
        }
    }
}

impl ZeroCopy for u8 {
    open spec fn byte_len() -> usize {
        1
    }

    open spec fn bytes_of(self) -> Seq<u8> {
        seq![self]
    }

    open spec fn val_at(bytes: Seq<u8>) -> u8 {
        bytes[0]
    }

    fn size() -> (n: usize) {
        1
    }

    fn front<'de>(bytes: &'de [u8]) -> (r: Option<&'de u8>) {
        if bytes.len() == 0 {
            None
        } else {
            assert(seq![bytes@[0]] =~= bytes@.take(1));
            Some(&bytes[0])
        }
    }

    fn front_mut<'de>(bytes: &'de mut [u8]) -> (r: Option<&'de mut u8>) {
        if bytes.len() == 0 {
            None
        } else {
            let ghost all = bytes@;
            proof {
                assert(seq![all[0]] =~= all.take(1));
                assert forall|b: u8| #[trigger] all.update(0, b) == seq![b] + all.skip(1) by {
                    assert(all.update(0, b) =~= seq![b] + all.skip(1));
                }
            }
            Some(&mut bytes[0])
        }
    }

    fn cast_slice<'de>(bytes: &'de [u8], len: usize) -> (r: &'de [u8]) {
        proof {
            lemma_single_chunks(bytes@);
        }
        bytes
    }

    fn cast_slice_mut<'de>(bytes: &'de mut [u8], len: usize) -> (r: &'de mut [u8]) {
        proof {
            lemma_single_chunks(bytes@);
            assert forall|after: Seq<u8>| #[trigger] after.len() == len implies forall|i: int|
                0 <= i < after.len() ==> #[trigger] chunk(after, 1, i) == seq![after[i]] by {
                lemma_single_chunks(after);
            }
        }
        bytes
    }
}

/// Bytes are values of one byte each.
pub proof fn lemma_single_chunks(bytes: Seq<u8>)
    ensures
        forall|i: int| 0 <= i < bytes.len() ==> #[trigger] chunk(bytes, 1, i) == seq![bytes[i]],
{
    assert forall|i: int| 0 <= i < bytes.len() implies #[trigger] chunk(bytes, 1, i)
        == seq![bytes[i]] by {
        assert(chunk(bytes, 1, i) =~= seq![bytes[i]]);
    }
}

impl<const N: usize> ZeroCopy for [u8; N] {
    open spec fn byte_len() -> usize {
        N
    }

    open spec fn bytes_of(self) -> Seq<u8> {
        self@
    }

    open spec fn val_at(bytes: Seq<u8>) -> Seq<u8> {
        bytes
    }

    fn size() -> (n: usize) {
        N
    }

    fn front<'de>(bytes: &'de [u8]) -> (r: Option<&'de [u8; N]>) {
        first_chunk(bytes)
    }

    fn front_mut<'de>(bytes: &'de mut [u8]) -> (r: Option<&'de mut [u8; N]>) {
        first_chunk_mut(bytes)
    }

    fn cast_slice<'de>(bytes: &'de [u8], len: usize) -> (r: &'de [[u8; N]]) {
        if N == 0 {
            let r: &'de [[u8; N]] = empty_arrays::<N>(len);
            proof {
                assert(len * N == 0) by (nonlinear_arith)
                    requires
                        N == 0,
                ;
                assert forall|i: int, bytes: Seq<u8>| #[trigger]
                    chunk(bytes, 0, i) == Seq::<u8>::empty() by {
                    assert(i * 0 == (i + 1) * 0);
                    assert(chunk(bytes, 0, i) =~= Seq::<u8>::empty());
                }
                assert forall|a: [u8; N]| #[trigger] a@ == Seq::<u8>::empty() by {
                    assert(a@ =~= Seq::<u8>::empty());
                }
            }
            return r;
        }
        proof {
            vstd::arithmetic::div_mod::lemma_div_by_multiple(len as int, N as int);
        }
        let (chunks, rest) = as_chunks::<N>(bytes);
        chunks
    }

    fn cast_slice_mut<'de>(bytes: &'de mut [u8], len: usize) -> (r: &'de mut [[u8; N]]) {
        if N == 0 {
            let r: &'de mut [[u8; N]] = empty_arrays::<N>(len);
            proof {
                assert(len * N == 0) by (nonlinear_arith)
                    requires
                        N == 0,
                ;
                assert forall|i: int, bytes: Seq<u8>| #[trigger]
                    chunk(bytes, 0, i) == Seq::<u8>::empty() by {
                    assert(i * 0 == (i + 1) * 0);
                    assert(chunk(bytes, 0, i) =~= Seq::<u8>::empty());
                }
                assert forall|a: [u8; N]| #[trigger] a@ == Seq::<u8>::empty() by {
                    assert(a@ =~= Seq::<u8>::empty());
                }
            }
            return r;
        }
        proof {
            vstd::arithmetic::div_mod::lemma_div_by_multiple(len as int, N as int);
        }
        let (chunks, rest) = as_chunks_mut::<N>(bytes);
        chunks
    }
}

/// Reading `n` bytes in place.
pub open spec fn borrow_dec(n: nat, inp: Input) -> Result<(Seq<u8>, Input), Fault> {
    if !inp.backing {
        Err(inp.fault(ReadError::Io(crate::io::ReadError::UnsupportedBorrow)))
    } else if inp.bytes.len() < n {
        Err(inp.fault(ReadError::Io(crate::io::ReadError::ReadSizeLimit(n as usize))))
    } else {
        Ok((inp.bytes.take(n as int), inp.skip(n as int)))
    }
}

pub proof fn lemma_borrow_dec(n: nat, inp: Input)
    ensures
        borrow_dec(n, inp) matches Err(f) ==> f.left.follows(inp),
        borrow_dec(n, inp) matches Ok((bytes, rest)) ==> {
            &&& rest.follows(inp)
            &&& inp.consumed(rest) == n
        },
{
    if n <= inp.bytes.len() {
        lemma_skip_follows(inp, n as int);
    }
}

/// Reading a slice of bytes in place.
pub open spec fn borrowed_bytes_dec<Len: SeqLen<C>, C: ConfigCore>(inp: Input) -> Result<
    (Seq<u8>, Input),
    Fault,
> {
    match Len::len_dec(inp) {
        Ok((len, mid)) => borrow_dec(len, mid),
        Err(e) => Err(e),
    }
}

pub proof fn lemma_borrowed_bytes_dec<Len: SeqLen<C>, C: ConfigCore>(inp: Input)
    ensures
        borrowed_bytes_dec::<Len, C>(inp) matches Err(f) ==> f.left.follows(inp),
        borrowed_bytes_dec::<Len, C>(inp) matches Ok((bytes, rest)) ==> rest.follows(inp),
{
    Len::lemma_len_dec(inp);
    if let Ok((len, mid)) = Len::len_dec(inp) {
        lemma_borrow_dec(len, mid);
    }
}

/// Reads `n` bytes in place.
pub fn borrow_bytes<'de, R: Reader<'de>>(reader: &mut R, n: usize) -> (r: ReadResult<&'de [u8]>)
    ensures
        final(reader).input().follows(old(reader).input()),
        match borrow_dec(n as nat, old(reader).input()) {
            Ok((bytes, rest)) => {
                &&& r is Ok
                &&& (r->Ok_0)@ == bytes
                &&& final(reader).input() == rest
            },
            Err(f) => r is Err && r->Err_0 == f.err && final(reader).input() == f.left,
        },
{
    proof {
        lemma_borrow_dec(n as nat, old(reader).input());
    }
    match reader.take_borrowed(n) {
        Ok(bytes) => Ok(bytes),
        Err(e) => Err(ReadError::Io(e)),
    }
}

/// A reference is read in place. Though the value it refers to can be used where it stands, the
/// reference itself is no value that can be.
impl<'de, C: ConfigCore, T: ZeroCopy> SchemaRead<'de, C> for &'de T {
    type Dst = &'de T;

    open spec fn dst_val(dst: &&'de T) -> T::Val {
        T::val_at(dst.bytes_of())
    }

    open spec fn dec(inp: Input) -> Result<(T::Val, Input), Fault> {
        match borrow_dec(T::byte_len() as nat, inp) {
            Ok((bytes, rest)) => Ok((T::val_at(bytes), rest)),
            Err(e) => Err(e),
        }
    }

    open spec fn read_meta() -> TypeMeta {
        TypeMeta::Static { size: T::byte_len(), zero_copy: false }
    }

    open spec fn read_lawful() -> bool {
        true
    }

    proof fn lemma_dec(inp: Input) {
        lemma_borrow_dec(T::byte_len() as nat, inp);
    }

    fn type_meta() -> (m: TypeMeta) {
        TypeMeta::Static { size: T::size(), zero_copy: false }
    }

    fn get<R: Reader<'de>>(reader: &mut R) -> (r: ReadResult<&'de T>) {
        let bytes: &'de [u8] = borrow_bytes(reader, T::size())?;
        proof {
            assert(bytes@.take(bytes@.len() as int) =~= bytes@);
        }
        T::from_bytes(bytes)
    }
}

impl<'de, C: ConfigCore> RoundTrip<'de, C> for &'de u8 {
    open spec fn round_trips() -> bool {
        true
    }

    open spec fn src_valid(src: &&'de u8) -> bool {
        true
    }

    open spec fn needs_backing() -> bool {
        true
    }

    proof fn lemma_round_trip(src: &&'de u8, rest: Input) {
        lemma_prepend_skip(rest, seq![**src]);
    }
}

impl<'de, C: ConfigCore, const N: usize> RoundTrip<'de, C> for &'de [u8; N] {
    open spec fn round_trips() -> bool {
        true
    }

    open spec fn src_valid(src: &&'de [u8; N]) -> bool {
        true
    }

    open spec fn needs_backing() -> bool {
        true
    }

    proof fn lemma_round_trip(src: &&'de [u8; N], rest: Input) {
        assert(src@.len() == N);
        lemma_emit_bytes::<C>(src@);
        assert(emit_all::<u8, C>(src@).bytes == src@);
        lemma_prepend_skip(rest, src@);
        lemma_src_bytes::<C>(src@);
    }
}

/// Bytes are the values that they are.
pub proof fn lemma_src_bytes<C: ConfigCore>(s: Seq<u8>)
    ensures
        crate::schema::containers::decode::src_vals::<u8, C>(s) == s,
{
    assert(crate::schema::containers::decode::src_vals::<u8, C>(s) =~= s);
}

/// What is known of references to a type that can be used in place.
pub fn type_meta_t<'de, T: SchemaRead<'de, C>, C: ConfigCore>() -> (m: TypeMeta)
    requires
        T::read_meta().is_zero_copy(),
    ensures
        m == T::read_meta().masked(false),
        m is Static,
{
    T::type_meta().keep_zero_copy(false)
}

/// What is known of slices of a type that can be used in place: with the length in front, their
/// size is not.
pub fn type_meta_slice<'de, T: SchemaRead<'de, C>, C: ConfigCore>() -> (m: TypeMeta)
    requires
        T::read_meta().is_zero_copy(),
    ensures
        m == TypeMeta::Dynamic,
{
    TypeMeta::Dynamic
}

/// Fails if the configuration asks for aligned references and a value that has to be aligned to a
/// multiple of `align` stands at the address `addr`.
pub fn ensure_aligned<C: ConfigCore>(addr: usize, align: usize) -> (r: ReadResult<()>)
    requires
        align > 0,
    ensures
        r == (if C::align_check() && addr % align != 0 {
            Err::<(), ReadError>(ReadError::UnalignedPointerRead)
        } else {
            Ok(())
        }),
{
    if !C::zero_copy_align_check() {
        return Ok(());
    }
    if align > 1 && addr % align != 0 {
        return Err(unaligned_pointer_read());
    }
    Ok(())
}

} // verus!
