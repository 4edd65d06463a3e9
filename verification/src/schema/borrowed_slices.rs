//! Slices that are used where they stand in the input, and values that are changed there.
use crate::config::{Config, ConfigCore};
use crate::error::{read_length_encoding_overflow, ReadError, ReadResult};
use crate::io::Reader;
use crate::len::SeqLen;
use crate::model::{lemma_prepend_prepend, lemma_prepend_skip, Fault, Input};
use crate::schema::context;
use crate::schema::containers::decode::src_vals;
use crate::schema::elems::{emit_all, lemma_emit_all};
use crate::schema::impls::text::lemma_emit_bytes;
use crate::schema::zero_copy::{
    borrow_bytes, borrow_dec, chunk, lemma_borrow_dec, lemma_single_chunks, lemma_src_bytes,
};
use crate::schema::{RoundTrip, SchemaRead, SchemaReadContext, TypeMeta, ZeroCopy};
use vstd::prelude::*;

verus! {

broadcast use {
    crate::model::lemma_follows_transitive,
    crate::model::lemma_follows_reflexive,
};

/// The `n` values of which `bytes` are the bytes.
pub open spec fn vals_at<T: ZeroCopy>(bytes: Seq<u8>, n: nat) -> Seq<T::Val> {
    Seq::new(n, |i: int| T::val_at(chunk(bytes, T::byte_len() as nat, i)))
}

/// The values that a slice holds.
pub open spec fn slice_vals<T: ZeroCopy>(s: Seq<T>) -> Seq<T::Val> {
    Seq::new(s.len(), |i: int| T::val_at(s[i].bytes_of()))
}

/// Reading `n` values in place.
pub open spec fn borrow_n_dec<T: ZeroCopy>(n: nat, inp: Input) -> Result<
    (Seq<T::Val>, Input),
    Fault,
> {
    if n * T::byte_len() > usize::MAX {
        Err(inp.fault(ReadError::LengthEncodingOverflow("usize::MAX")))
    } else {
        match borrow_dec(n * (T::byte_len() as nat), inp) {
            Ok((bytes, rest)) => Ok((vals_at::<T>(bytes, n), rest)),
            Err(e) => Err(e),
        }
    }
}

/// Reading a slice in place: its length, and its values.
pub open spec fn borrowed_slice_dec<T: ZeroCopy, Len: SeqLen<C>, C: ConfigCore>(
    inp: Input,
) -> Result<(Seq<T::Val>, Input), Fault> {
    match Len::len_dec(inp) {
        Ok((len, mid)) => borrow_n_dec::<T>(len, mid),
        Err(e) => Err(e),
    }
}

/// Reads `len` values in place.
pub fn borrow_slice<'de, T: ZeroCopy, R: Reader<'de>>(reader: &mut R, len: usize) -> (r: ReadResult<
    &'de [T],
>)
    ensures
        final(reader).input().follows(old(reader).input()),
        match borrow_n_dec::<T>(len as nat, old(reader).input()) {
            Ok((vals, rest)) => {
                &&& r is Ok
                &&& slice_vals((r->Ok_0)@) == vals
                &&& final(reader).input() == rest
            },
            Err(f) => r is Err && r->Err_0 == f.err && final(reader).input() == f.left,
        },
{
    let size: usize = T::size();
    let total: usize = match len.checked_mul(size) {
        Some(total) => total,
        None => {
            return Err(read_length_encoding_overflow("usize::MAX"));
        },
    };
    let bytes: &'de [u8] = borrow_bytes(reader, total)?;
    let s: &'de [T] = T::cast_slice(bytes, len);
    proof {
        assert(slice_vals(s@) =~= vals_at::<T>(bytes@, len as nat));
    }
    Ok(s)
}

impl<'de, C: ConfigCore, T: ZeroCopy> SchemaReadContext<'de, C, context::Len> for &'de [T] {
    type Dst = &'de [T];

    open spec fn context_val(dst: &&'de [T]) -> Seq<T::Val> {
        slice_vals(dst@)
    }

    open spec fn context_dec(ctx: context::Len, inp: Input) -> Result<
        (Seq<T::Val>, Input),
        Fault,
    > {
        borrow_n_dec::<T>(ctx.0 as nat, inp)
    }

    open spec fn context_lawful() -> bool {
        true
    }

    fn get_with_context<R: Reader<'de>>(ctx: context::Len, reader: &mut R) -> (r: ReadResult<
        &'de [T],
    >) {
        borrow_slice::<T, R>(reader, ctx.0)
    }
}

/// A slice is read in place, whatever memory it would ask for elsewhere.
impl<'de, C: Config, T: ZeroCopy> SchemaRead<'de, C> for &'de [T] {
    type Dst = &'de [T];

    open spec fn dst_val(dst: &&'de [T]) -> Seq<T::Val> {
        slice_vals(dst@)
    }

    open spec fn dec(inp: Input) -> Result<(Seq<T::Val>, Input), Fault> {
        borrowed_slice_dec::<T, C::LengthEncoding, C>(inp)
    }

    open spec fn read_meta() -> TypeMeta {
        TypeMeta::Dynamic
    }

    open spec fn read_lawful() -> bool {
        true
    }

    proof fn lemma_dec(inp: Input) {
        C::LengthEncoding::lemma_len_dec(inp);
        if let Ok((len, mid)) = C::LengthEncoding::len_dec(inp) {
            lemma_borrow_dec(len * (T::byte_len() as nat), mid);
        }
    }

    fn type_meta() -> (m: TypeMeta) {
        TypeMeta::Dynamic
    }

    fn get<R: Reader<'de>>(reader: &mut R) -> (r: ReadResult<&'de [T]>) {
        let len: usize = C::LengthEncoding::read(reader)?;
        borrow_slice::<T, R>(reader, len)
    }
}

/// Bytes are values of one byte each.
pub proof fn lemma_byte_vals(bytes: Seq<u8>)
    ensures
        vals_at::<u8>(bytes, bytes.len()) == bytes,
{
    lemma_single_chunks(bytes);
    assert(vals_at::<u8>(bytes, bytes.len()) =~= bytes);
}

impl<'de, C: Config> RoundTrip<'de, C> for &'de [u8] {
    open spec fn round_trips() -> bool {
        true
    }

    open spec fn src_valid(src: &&'de [u8]) -> bool {
        true
    }

    open spec fn needs_backing() -> bool {
        true
    }

    proof fn lemma_round_trip(src: &&'de [u8], rest: Input) {
        let bytes = src@;
        lemma_emit_bytes::<C>(bytes);
        lemma_src_bytes::<C>(bytes);
        lemma_byte_vals(bytes);
        lemma_prepend_prepend(rest, C::LengthEncoding::len_emit(bytes.len()).bytes, bytes);
        assert(bytes.len() == src.len());
        C::LengthEncoding::lemma_len_round_trip(bytes.len(), rest.prepend(bytes));
        lemma_prepend_skip(rest, bytes);
    }
}

/// Arrays of bytes are written one after the other, as they are.
proof fn lemma_emit_arrays<const N: usize, C: ConfigCore>(s: Seq<[u8; N]>)
    ensures
        emit_all::<[u8; N], C>(s).ok(),
        emit_all::<[u8; N], C>(s).bytes.len() == s.len() * N,
        vals_at::<[u8; N]>(emit_all::<[u8; N], C>(s).bytes, s.len()) == src_vals::<[u8; N], C>(s),
    decreases s.len(),
{
    let bytes = emit_all::<[u8; N], C>(s).bytes;
    if s.len() > 0 {
        let init = s.drop_last();
        let front = emit_all::<[u8; N], C>(init).bytes;
        let last = s.last();
        let n: int = init.len() as int;
        lemma_emit_arrays::<N, C>(init);
        lemma_emit_bytes::<C>(last@);
        assert(last@.len() == N);
        assert(bytes == front + last@);
        assert((n + 1) * N == n * N + N) by (nonlinear_arith);
        assert forall|i: int| 0 <= i < s.len() implies #[trigger] chunk(bytes, N as nat, i)
            == s[i]@ by {
            lemma_src_bytes::<C>(s[i]@);
            if i < n {
                assert(0 <= i * N <= (i + 1) * N <= n * N) by (nonlinear_arith)
                    requires
                        0 <= i < n,
                ;
                assert(chunk(bytes, N as nat, i) =~= chunk(front, N as nat, i));
                assert(vals_at::<[u8; N]>(front, n as nat)[i] == src_vals::<[u8; N], C>(init)[i]);
            } else {
                assert(chunk(bytes, N as nat, i) =~= last@);
            }
        }
        assert forall|i: int| 0 <= i < s.len() implies src_vals::<[u8; N], C>(s)[i] == (
        #[trigger] s[i])@ by {
            lemma_src_bytes::<C>(s[i]@);
        }
        assert(vals_at::<[u8; N]>(bytes, s.len()) =~= src_vals::<[u8; N], C>(s));
    } else {
        assert(0 * N == 0);
        assert(vals_at::<[u8; N]>(bytes, s.len()) =~= src_vals::<[u8; N], C>(s));
    }
}

impl<'de, C: Config, const N: usize> RoundTrip<'de, C> for &'de [[u8; N]] {
    open spec fn round_trips() -> bool {
        true
    }

    open spec fn src_valid(src: &&'de [[u8; N]]) -> bool {
        true
    }

    open spec fn needs_backing() -> bool {
        true
    }

    proof fn lemma_round_trip(src: &&'de [[u8; N]], rest: Input) {
        let s = src@;
        let bytes = emit_all::<[u8; N], C>(s).bytes;
        lemma_emit_arrays::<N, C>(s);
        lemma_emit_all::<[u8; N], C>(s);
        lemma_prepend_prepend(rest, C::LengthEncoding::len_emit(s.len()).bytes, bytes);
        assert(s.len() == src.len());
        C::LengthEncoding::lemma_len_round_trip(s.len(), rest.prepend(bytes));
        lemma_prepend_skip(rest, bytes);
    }
}

/// Reads the value that is at the front of `bytes`, to be changed in place, and gives the bytes
/// behind it. What is written through either is written to `bytes`.
pub fn read_mut<'de, T: ZeroCopy>(bytes: &'de mut [u8]) -> (r: ReadResult<
    (&'de mut T, &'de mut [u8]),
>)
    ensures
        match borrow_dec(T::byte_len() as nat, (Input { bytes: old(bytes)@, backing: true })) {
            Ok((front, rest)) => {
                &&& r is Ok
                &&& (r->Ok_0).0.bytes_of() == front
                &&& (r->Ok_0).1@ == rest.bytes
                &&& final(bytes)@ == final((r->Ok_0).0).bytes_of() + final((r->Ok_0).1)@
            },
            Err(f) => r is Err && r->Err_0 == f.err && final(bytes)@ == old(bytes)@,
        },
{
    let size: usize = T::size();
    if size > bytes.len() {
        return Err(ReadError::Io(crate::io::ReadError::ReadSizeLimit(size)));
    }
    let ghost all = bytes@;
    let (front, rest) = bytes.split_at_mut(size);
    proof {
        assert(all.subrange(0, size as int) =~= all.take(size as int));
        assert(all.subrange(size as int, all.len() as int) =~= all.skip(size as int));
        assert(front@.take(size as int) =~= front@);
        assert(front@.skip(size as int) =~= Seq::<u8>::empty());
        assert forall|v: Seq<u8>| #[trigger] (v + front@.skip(size as int)) == v by {
            assert(v + front@.skip(size as int) =~= v);
        }
    }
    let v: &'de mut T = T::from_bytes_mut(front)?;
    Ok((v, rest))
}

/// `all` is made of the pieces `a`, `b` and `c`, and `b` of `len` values of `size` bytes each.
spec fn pieces_apart(
    a: Seq<u8>,
    b: Seq<u8>,
    c: Seq<u8>,
    all: Seq<u8>,
    len: nat,
    size: nat,
) -> bool {
    &&& all.take(a.len() as int) == a
    &&& all.skip((a.len() + len * size) as int) == c
    &&& forall|i: int|
        0 <= i < len ==> #[trigger] chunk(all.skip(a.len() as int), size, i) == chunk(b, size, i)
}

proof fn lemma_pieces_apart(a: Seq<u8>, b: Seq<u8>, c: Seq<u8>, len: nat, size: nat)
    requires
        b.len() == len * size,
    ensures
        pieces_apart(a, b, c, a + (b + c), len, size),
{
    let all = a + (b + c);
    assert(all.take(a.len() as int) =~= a);
    assert(all.skip((a.len() + b.len()) as int) =~= c);
    assert forall|i: int| 0 <= i < len implies #[trigger] chunk(
        all.skip(a.len() as int),
        size,
        i,
    ) == chunk(b, size, i) by {
        assert(0 <= i * size <= (i + 1) * size <= len * size) by (nonlinear_arith)
            requires
                0 <= i < len,
        ;
        assert(chunk(all.skip(a.len() as int), size, i) =~= chunk(b, size, i));
    }
}

/// What became of `before` when a slice of `len` values of the type `T`, which ends where the
/// bytes `rest` start, was changed to `vals`, and `rest` to `after_rest`.
pub open spec fn slice_changed<T: ZeroCopy>(
    before: Seq<u8>,
    after: Seq<u8>,
    len: nat,
    rest: nat,
    vals: Seq<T>,
    after_rest: Seq<u8>,
) -> bool {
    let size = T::byte_len() as nat;
    let head = before.len() - rest - len * size;
    &&& after.take(head) == before.take(head)
    &&& forall|i: int|
        0 <= i < len ==> chunk(after.skip(head), size, i) == (#[trigger] vals[i]).bytes_of()
    &&& after.skip(head + len * size) == after_rest
}

/// Reads the slice that is at the front of `bytes`, its length first, to be changed in place, and
/// gives the bytes behind it. What is written through either is written to `bytes`.
pub fn read_slice_mut<'de, T: ZeroCopy, C: Config>(bytes: &'de mut [u8]) -> (r: ReadResult<
    (&'de mut [T], &'de mut [u8]),
>)
    ensures
        match borrowed_slice_dec::<T, C::LengthEncoding, C>(
            (Input { bytes: old(bytes)@, backing: true }),
        ) {
            Ok((vals, rest)) => {
                &&& r is Ok
                &&& slice_vals((r->Ok_0).0@) == vals
                &&& (r->Ok_0).1@ == rest.bytes
                &&& final((r->Ok_0).0)@.len() == vals.len() ==> slice_changed::<T>(
                    old(bytes)@,
                    final(bytes)@,
                    vals.len(),
                    rest.bytes.len(),
                    final((r->Ok_0).0)@,
                    final((r->Ok_0).1)@,
                )
            },
            Err(f) => r is Err && r->Err_0 == f.err && final(bytes)@ == old(bytes)@,
        },
{
    let size: usize = T::size();
    let ghost all = bytes@;
    let ghost inp = Input { bytes: all, backing: true };
    let whole: usize = bytes.len();
    let mut reader: &[u8] = &*bytes;
    proof {
        C::LengthEncoding::lemma_len_dec(inp);
    }
    let (len, total) = read_slice_len_checked::<C, &[u8]>(&mut reader, size)?;
    let left: usize = reader.len();
    let ghost mid = reader.input();
    if total > left {
        return Err(ReadError::Io(crate::io::ReadError::ReadSizeLimit(total)));
    }
    let head: usize = whole - left;
    let (front, tail) = bytes.split_at_mut(head);
    let (body, rest) = tail.split_at_mut(total);
    proof {
        assert(front@ =~= all.take(head as int));
        assert(body@ =~= mid.bytes.take(total as int));
        assert(rest@ =~= mid.bytes.skip(total as int));
        assert forall|b: Seq<u8>, r: Seq<u8>|
            b.len() == total implies pieces_apart(
            front@,
            b,
            r,
            #[trigger] (front@ + (b + r)),
            len as nat,
            size as nat,
        ) by {
            lemma_pieces_apart(front@, b, r, len as nat, size as nat);
        }
    }
    let s: &'de mut [T] = T::cast_slice_mut(body, len);
    proof {
        assert(slice_vals(s@) =~= vals_at::<T>(mid.bytes.take(total as int), len as nat));
    }
    Ok((s, rest))
}

/// Reads the length of a slice of values of `size` bytes each, and gives the length and the number
/// of bytes of all of them.
pub fn read_slice_len_checked<'de, C: Config, R: Reader<'de>>(
    reader: &mut R,
    size: usize,
) -> (r: ReadResult<(usize, usize)>)
    ensures
        final(reader).input().follows(old(reader).input()),
        match C::LengthEncoding::len_dec(old(reader).input()) {
            Ok((len, rest)) => {
                &&& final(reader).input() == rest
                &&& if len * size <= usize::MAX {
                    r == Ok::<(usize, usize), ReadError>((len as usize, (len * size) as usize))
                } else {
                    r == Err::<(usize, usize), ReadError>(
                        ReadError::LengthEncodingOverflow("usize::MAX"),
                    )
                }
            },
            Err(f) => {
                &&& r == Err::<(usize, usize), ReadError>(f.err)
                &&& final(reader).input() == f.left
            },
        },
{
    let len: usize = C::LengthEncoding::read(reader)?;
    match len.checked_mul(size) {
        Some(total) => Ok((len, total)),
        None => Err(read_length_encoding_overflow("usize::MAX")),
    }
}

} // verus!
