//! What is read in place, and what of the layout of a type is known beforehand.
use crate::config::{Config, ConfigCore};
use crate::error::ReadError;
use crate::len::SeqLen;
use crate::model::{Fault, Input};
use crate::schema::borrowed_slices::{lemma_byte_vals, slice_changed, slice_vals};
use crate::schema::context;
use crate::schema::type_meta::{all_static, all_zero_copy, joinable, joined, size_sum};
use crate::schema::zero_copy::chunk;
use crate::schema::{
    RoundTrip, SchemaRead, SchemaReadContext, TypeMeta, ZeroCopy,
};
use vstd::prelude::*;

verus! {

/// A reference to a byte or to an array of bytes is to those at the front of the input, which has to
/// lend them out.
pub proof fn law_references_are_read_in_place<'de, C: ConfigCore, const N: usize>(
    b: &'de u8,
    a: &'de [u8; N],
    inp: Input,
)
    ensures
        !inp.backing ==> {
            &&& <&'de u8 as SchemaRead<'de, C>>::dec(inp) == Err::<(u8, Input), Fault>(
                (Fault { err: ReadError::Io(crate::io::ReadError::UnsupportedBorrow), left: inp }),
            )
            &&& <&'de [u8; N] as SchemaRead<'de, C>>::dec(inp) == Err::<(Seq<u8>, Input), Fault>(
                (Fault { err: ReadError::Io(crate::io::ReadError::UnsupportedBorrow), left: inp }),
            )
        },
        inp.backing && inp.bytes.len() == 0 ==> <&'de u8 as SchemaRead<'de, C>>::dec(inp) == Err::<
            (u8, Input),
            Fault,
        >((Fault { err: ReadError::Io(crate::io::ReadError::ReadSizeLimit(1)), left: inp })),
        inp.backing && inp.bytes.len() > 0 ==> <&'de u8 as SchemaRead<'de, C>>::dec(inp) == Ok::<
            (u8, Input),
            Fault,
        >((inp.bytes[0], Input { bytes: inp.bytes.skip(1), backing: true })),
        inp.backing && inp.bytes.len() < N ==> <&'de [u8; N] as SchemaRead<'de, C>>::dec(inp)
            == Err::<(Seq<u8>, Input), Fault>(
            (Fault { err: ReadError::Io(crate::io::ReadError::ReadSizeLimit(N)), left: inp }),
        ),
        inp.backing && inp.bytes.len() >= N ==> <&'de [u8; N] as SchemaRead<'de, C>>::dec(inp)
            == Ok::<(Seq<u8>, Input), Fault>(
            (
                inp.bytes.take(N as int),
                Input { bytes: inp.bytes.skip(N as int), backing: true },
            ),
        ),
        <&'de u8 as SchemaRead<'de, C>>::dst_val(&b) == *b,
        <&'de [u8; N] as SchemaRead<'de, C>>::dst_val(&a) == a@,
        <&'de u8 as SchemaRead<'de, C>>::read_lawful(),
        <&'de [u8; N] as SchemaRead<'de, C>>::read_lawful(),
        <&'de u8 as SchemaRead<'de, C>>::read_meta() == (TypeMeta::Static {
            size: 1,
            zero_copy: false,
        }),
        <&'de [u8; N] as SchemaRead<'de, C>>::read_meta() == (TypeMeta::Static {
            size: N,
            zero_copy: false,
        }),
        <&'de u8 as RoundTrip<'de, C>>::round_trips(),
        <&'de u8 as RoundTrip<'de, C>>::src_valid(&b),
        <&'de u8 as RoundTrip<'de, C>>::needs_backing(),
        <&'de [u8; N] as RoundTrip<'de, C>>::round_trips(),
        <&'de [u8; N] as RoundTrip<'de, C>>::src_valid(&a),
        <&'de [u8; N] as RoundTrip<'de, C>>::needs_backing(),
{
}

/// A slice of bytes that is read in place is its length and then as many bytes of the input, which
/// has to lend them out, whatever memory they would take up elsewhere.
pub proof fn law_borrowed_bytes<'de, C: Config>(s: &'de [u8], inp: Input)
    ensures
        <&'de [u8] as SchemaRead<'de, C>>::dec(inp) == match C::LengthEncoding::len_dec(inp) {
            Ok((n, mid)) => if !mid.backing {
                Err::<(Seq<u8>, Input), Fault>(
                    (Fault {
                        err: ReadError::Io(crate::io::ReadError::UnsupportedBorrow),
                        left: mid,
                    }),
                )
            } else if mid.bytes.len() < n {
                Err(
                    (Fault {
                        err: ReadError::Io(crate::io::ReadError::ReadSizeLimit(n as usize)),
                        left: mid,
                    }),
                )
            } else {
                Ok(
                    (
                        mid.bytes.take(n as int),
                        Input { bytes: mid.bytes.skip(n as int), backing: mid.backing },
                    ),
                )
            },
            Err(f) => Err(f),
        },
        C::LengthEncoding::len_dec(inp) matches Ok((n, mid)) ==> <&'de [u8] as SchemaRead<
            'de,
            C,
        >>::dec(inp) == <&'de [u8] as SchemaReadContext<'de, C, context::Len>>::context_dec(
            context::Len(n as usize),
            mid,
        ),
        <&'de [u8] as SchemaRead<'de, C>>::dst_val(&s) == s@,
        <&'de [u8] as SchemaReadContext<'de, C, context::Len>>::context_val(&s) == s@,
        <&'de [u8] as SchemaReadContext<'de, C, context::Len>>::context_lawful(),
        <&'de [u8] as SchemaRead<'de, C>>::read_lawful(),
        <&'de [u8] as SchemaRead<'de, C>>::read_meta() is Dynamic,
        <&'de [u8] as RoundTrip<'de, C>>::round_trips(),
        <&'de [u8] as RoundTrip<'de, C>>::src_valid(&s),
        <&'de [u8] as RoundTrip<'de, C>>::needs_backing(),
{
    C::LengthEncoding::lemma_len_dec(inp);
    assert(slice_vals(s@) =~= s@);
    if let Ok((n, mid)) = C::LengthEncoding::len_dec(inp) {
        assert(n * 1 == n);
        if n <= mid.bytes.len() {
            lemma_byte_vals(mid.bytes.take(n as int));
        }
    }
}

/// A slice of arrays of bytes that is read in place is its length and then as many arrays, one after
/// the other.
pub proof fn law_borrowed_arrays<'de, C: Config, const N: usize>(s: &'de [[u8; N]], inp: Input)
    ensures
        C::LengthEncoding::len_dec(inp) matches Err(f) ==> <&'de [[u8; N]] as SchemaRead<
            'de,
            C,
        >>::dec(inp) == Err::<(Seq<Seq<u8>>, Input), Fault>(f),
        C::LengthEncoding::len_dec(inp) matches Ok((n, mid)) ==> {
            let r = <&'de [[u8; N]] as SchemaRead<'de, C>>::dec(inp);
            &&& r == <&'de [[u8; N]] as SchemaReadContext<'de, C, context::Len>>::context_dec(
                context::Len(n as usize),
                mid,
            )
            &&& n * N > usize::MAX ==> r == Err::<(Seq<Seq<u8>>, Input), Fault>(
                (Fault { err: ReadError::LengthEncodingOverflow("usize::MAX"), left: mid }),
            )
            &&& n * N <= usize::MAX && !mid.backing ==> r == Err::<(Seq<Seq<u8>>, Input), Fault>(
                (Fault { err: ReadError::Io(crate::io::ReadError::UnsupportedBorrow), left: mid }),
            )
            &&& n * N <= usize::MAX && mid.backing && mid.bytes.len() < n * N ==> r == Err::<
                (Seq<Seq<u8>>, Input),
                Fault,
            >(
                (Fault {
                    err: ReadError::Io(crate::io::ReadError::ReadSizeLimit((n * N) as usize)),
                    left: mid,
                }),
            )
            &&& n * N <= usize::MAX && mid.backing && mid.bytes.len() >= n * N ==> {
                &&& r is Ok
                &&& r->Ok_0.0.len() == n
                &&& r->Ok_0.1.bytes == mid.bytes.skip(n * N)
                &&& r->Ok_0.1.backing
                &&& forall|i: int|
                    0 <= i < n ==> #[trigger] r->Ok_0.0[i] == mid.bytes.subrange(
                        i * N,
                        (i + 1) * N,
                    )
            }
        },
        <&'de [[u8; N]] as SchemaRead<'de, C>>::dst_val(&s) == s@.map_values(|a: [u8; N]| a@),
        <&'de [[u8; N]] as SchemaRead<'de, C>>::read_lawful(),
        <&'de [[u8; N]] as SchemaRead<'de, C>>::read_meta() is Dynamic,
        <&'de [[u8; N]] as RoundTrip<'de, C>>::round_trips(),
        <&'de [[u8; N]] as RoundTrip<'de, C>>::src_valid(&s),
        <&'de [[u8; N]] as RoundTrip<'de, C>>::needs_backing(),
{
    C::LengthEncoding::lemma_len_dec(inp);
    assert(slice_vals(s@) =~= s@.map_values(|a: [u8; N]| a@));
    if let Ok((n, mid)) = C::LengthEncoding::len_dec(inp) {
        if n * N <= mid.bytes.len() {
            assert forall|i: int| 0 <= i < n implies chunk(
                mid.bytes.take((n * N) as int),
                N as nat,
                i,
            ) == #[trigger] mid.bytes.subrange(i * N, (i + 1) * N) by {
                assert(0 <= i * N <= (i + 1) * N <= n * N) by (nonlinear_arith)
                    requires
                        0 <= i < n,
                ;
                assert(chunk(mid.bytes.take((n * N) as int), N as nat, i) =~= mid.bytes.subrange(
                    i * N,
                    (i + 1) * N,
                ));
            }
        }
    }
}

/// A value of a type that is used in place is its bytes.
pub proof fn law_values_in_place<const N: usize>(b: u8, a: [u8; N], bytes: Seq<u8>, i: int)
    ensures
        <u8 as ZeroCopy>::byte_len() == 1,
        b.bytes_of() == seq![b],
        bytes.len() == 1 ==> <u8 as ZeroCopy>::val_at(bytes) == bytes[0],
        <[u8; N] as ZeroCopy>::byte_len() == N,
        a.bytes_of() == a@,
        <[u8; N] as ZeroCopy>::val_at(bytes) == bytes,
        chunk(bytes, N as nat, i) == bytes.subrange(i * N, (i + 1) * N),
{
}

/// Bytes that were changed in place stand where they stood, with what is in front of them as it was.
pub proof fn law_bytes_changed_in_place(
    head: Seq<u8>,
    bytes: Seq<u8>,
    behind: Seq<u8>,
    vals: Seq<u8>,
    after_behind: Seq<u8>,
    after: Seq<u8>,
)
    requires
        vals.len() == bytes.len(),
        after.len() == head.len() + vals.len() + after_behind.len(),
        slice_changed::<u8>(
            head + bytes + behind,
            after,
            bytes.len(),
            behind.len(),
            vals,
            after_behind,
        ),
    ensures
        after == head + vals + after_behind,
{
    let n = bytes.len();
    let h = head.len() as int;
    assert(n * 1 == n);
    assert(after.take(h) == (head + bytes + behind).take(h));
    assert((head + bytes + behind).take(h) =~= head);
    assert forall|i: int| 0 <= i < n implies after[h + i] == vals[i] by {
        assert(vals[i].bytes_of() == chunk(after.skip(h), 1, i));
        assert(chunk(after.skip(h), 1, i)[0] == after[h + i]);
    }
    assert forall|i: int| 0 <= i < h implies after[i] == head[i] by {
        assert(after.take(h)[i] == after[i]);
    }
    assert forall|i: int| 0 <= i < after_behind.len() implies after[h + n + i]
        == after_behind[i] by {
        assert(after.skip(h + n)[i] == after[h + n + i]);
    }
    assert(after =~= head + vals + after_behind);
}

/// Types one after the other have a known size if each has one, namely the sum; their memory may be
/// copied if that of each may.
pub proof fn law_joined_types(types: Seq<TypeMeta>, next: TypeMeta)
    requires
        size_sum(types.push(next)) <= usize::MAX,
    ensures
        joined(Seq::empty()) == (TypeMeta::Static { size: 0, zero_copy: true }),
        joined(types.push(next)) == match (joined(types), next) {
            (
                TypeMeta::Static { size: n, zero_copy: a },
                TypeMeta::Static { size: m, zero_copy: b },
            ) => TypeMeta::Static { size: (n + m) as usize, zero_copy: a && b },
            _ => TypeMeta::Dynamic,
        },
{
    let all = types.push(next);
    let n = types.len() as int;
    assert(all.drop_last() =~= types);
    assert(all[n] == next);
    assert(forall|i: int| 0 <= i < n ==> all[i] == types[i]);
    if all_static(all) {
        assert forall|i: int| 0 <= i < n implies #[trigger] types[i] is Static by {
            assert(all[i] is Static);
        }
        if all_zero_copy(all) {
            assert forall|i: int| 0 <= i < n implies (#[trigger] types[i])->zero_copy by {
                assert(all[i]->zero_copy);
            }
        }
    }
}

/// Types can be joined if the sizes in front of the first without a known size add up to a `usize`.
pub proof fn law_joinable_types(types: Seq<TypeMeta>)
    ensures
        size_sum(types) <= usize::MAX && all_static(types) ==> joinable(types),
        joinable(types) && all_static(types) ==> size_sum(types) <= usize::MAX,
{
    assert(types.take(types.len() as int) =~= types);
    if size_sum(types) <= usize::MAX && all_static(types) {
        assert forall|i: int| 0 <= i <= types.len()
            && all_static(#[trigger] types.take(i)) implies size_sum(
            types.take(i),
        ) <= usize::MAX by {
            lemma_size_sum_grows(types, i);
        }
    }
}

proof fn lemma_size_sum_grows(types: Seq<TypeMeta>, i: int)
    requires
        0 <= i <= types.len(),
    ensures
        size_sum(types.take(i)) <= size_sum(types),
    decreases types.len(),
{
    if i < types.len() {
        assert(types.drop_last().take(i) =~= types.take(i));
        lemma_size_sum_grows(types.drop_last(), i);
    } else {
        assert(types.take(i) =~= types);
    }
}

/// Masking keeps the size, and whether memory may be copied only if it is to be kept.
pub proof fn law_masked_types(m: TypeMeta, keep: bool)
    ensures
        m is Dynamic ==> m.masked(keep) is Dynamic && !m.is_zero_copy(),
        m matches TypeMeta::Static { size, zero_copy } ==> {
            &&& m.masked(keep) == (TypeMeta::Static { size, zero_copy: zero_copy && keep })
            &&& m.is_zero_copy() == zero_copy
        },
{
}

} // verus!
