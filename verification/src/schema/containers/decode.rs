//! Reading a known number of values, one after the other.
use crate::config::ConfigCore;
use crate::error::{read_length_encoding_overflow, ReadError, ReadResult};
use crate::io::Reader;
use crate::model::{lemma_prepend_prepend, Fault, Input};
use crate::schema::elems::{emit_all, lemma_emit_all_step};
use crate::schema::{RoundTrip, SchemaRead, SchemaWrite, TypeMeta};
use vstd::prelude::*;

verus! {

broadcast use {
    crate::model::lemma_follows_transitive,
    crate::model::lemma_follows_reflexive,
};

/// The values that are held by `s`.
pub open spec fn dst_vals<'de, T: SchemaRead<'de, C>, C: ConfigCore>(s: Seq<T::Dst>) -> Seq<
    T::Val,
> {
    Seq::new(s.len(), |i: int| T::dst_val(&s[i]))
}

/// The values that are held by `s`.
pub open spec fn src_vals<T: SchemaWrite<C>, C: ConfigCore>(s: Seq<T::Src>) -> Seq<T::Val> {
    Seq::new(s.len(), |i: int| T::src_val(&s[i]))
}

/// Reading `n` values.
pub open spec fn dec_n<'de, T: SchemaRead<'de, C>, C: ConfigCore>(n: nat, inp: Input) -> Result<
    (Seq<T::Val>, Input),
    Fault,
>
    decreases n,
{
    if n == 0 {
        Ok((Seq::empty(), inp))
    } else {
        match dec_n::<T, C>((n - 1) as nat, inp) {
            Ok((vs, mid)) => match T::dec(mid) {
                Ok((v, rest)) => Ok((vs.push(v), rest)),
                Err(e) => Err(e),
            },
            Err(e) => Err(e),
        }
    }
}

/// Whether `n` values of a type with the given layout can be read from `inp`, as far as the
/// number of bytes is known: the error that is reported if not.
pub open spec fn window_err(meta: TypeMeta, n: nat, inp: Input) -> Option<ReadError> {
    match meta {
        TypeMeta::Static { size, .. } => if n * (size as nat) > usize::MAX {
            Some(ReadError::LengthEncodingOverflow("usize::MAX"))
        } else if inp.bytes.len() < n * (size as nat) {
            Some(ReadError::Io(crate::io::ReadError::ReadSizeLimit((n * (size as nat)) as usize)))
        } else {
            None
        },
        TypeMeta::Dynamic => None,
    }
}

/// Reading `n` values, of which none is read unless there are bytes enough for all, as far as
/// their number is known.
pub open spec fn dec_window<'de, T: SchemaRead<'de, C>, C: ConfigCore>(
    n: nat,
    inp: Input,
) -> Result<(Seq<T::Val>, Input), Fault> {
    match window_err(T::read_meta(), n, inp) {
        Some(e) => Err(inp.fault(e)),
        None => dec_n::<T, C>(n, inp),
    }
}

/// Fails if it is known that `n` values of the given layout cannot be read.
pub fn expect_window<'de, R: Reader<'de>>(reader: &R, meta: TypeMeta, n: usize) -> (r: ReadResult<
    (),
>)
    ensures
        match window_err(meta, n as nat, reader.input()) {
            Some(e) => r == Err::<(), ReadError>(e),
            None => r is Ok,
        },
{
    match meta {
        TypeMeta::Static { size, .. } => match n.checked_mul(size) {
            Some(needed) => match reader.expect_available(needed) {
                Ok(()) => Ok(()),
                Err(e) => Err(ReadError::Io(e)),
            },
            None => Err(read_length_encoding_overflow("usize::MAX")),
        },
        TypeMeta::Dynamic => Ok(()),
    }
}

pub proof fn lemma_dec_n<'de, T: SchemaRead<'de, C>, C: ConfigCore>(n: nat, inp: Input)
    ensures
        dec_n::<T, C>(n, inp) matches Err(f) ==> f.left.follows(inp),
        dec_n::<T, C>(n, inp) matches Ok((vs, rest)) ==> {
            &&& vs.len() == n
            &&& rest.follows(inp)
            &&& T::read_meta() matches TypeMeta::Static { size, .. } ==> inp.consumed(rest) == n
                * size
        },
    decreases n,
{
    if n > 0 {
        lemma_dec_n::<T, C>((n - 1) as nat, inp);
        if let Ok((vs, mid)) = dec_n::<T, C>((n - 1) as nat, inp) {
            T::lemma_dec(mid);
        }
        if let TypeMeta::Static { size, .. } = T::read_meta() {
            let m = n - 1;
            assert(m * size + size == (m + 1) * size) by (nonlinear_arith);
        }
    }
}

/// A failure on the way stays a failure.
proof fn lemma_dec_n_err<'de, T: SchemaRead<'de, C>, C: ConfigCore>(i: nat, n: nat, inp: Input)
    requires
        i <= n,
    ensures
        dec_n::<T, C>(i, inp) matches Err(e) ==> dec_n::<T, C>(n, inp) == Err::<
            (Seq<T::Val>, Input),
            Fault,
        >(e),
    decreases n,
{
    if i < n {
        lemma_dec_n_err::<T, C>(i, (n - 1) as nat, inp);
    }
}

/// Whether each of `s` is valid.
pub open spec fn all_valid<'de, T: RoundTrip<'de, C>, C: ConfigCore>(s: Seq<T::Src>) -> bool {
    forall|i: int| 0 <= i < s.len() ==> #[trigger] T::src_valid(&s[i])
}

/// Reading gives back the values that were written one after the other.
pub proof fn lemma_dec_n_round_trip<'de, T: RoundTrip<'de, C>, C: ConfigCore>(
    s: Seq<T::Src>,
    rest: Input,
)
    requires
        T::round_trips(),
        all_valid::<T, C>(s),
        T::needs_backing() ==> rest.backing,
        emit_all::<T, C>(s).ok(),
        emit_all::<T, C>(s).weight <= usize::MAX,
    ensures
        dec_n::<T, C>(s.len(), rest.prepend(emit_all::<T, C>(s).bytes)) == Ok::<_, Fault>(
            (src_vals::<T, C>(s), rest),
        ),
        dec_window::<T, C>(s.len(), rest.prepend(emit_all::<T, C>(s).bytes)) == Ok::<_, Fault>(
            (src_vals::<T, C>(s), rest),
        ),
    decreases s.len(),
{
    let inp = rest.prepend(emit_all::<T, C>(s).bytes);
    if s.len() == 0 {
        assert(inp.bytes =~= rest.bytes);
        assert(src_vals::<T, C>(s) =~= Seq::empty());
    } else {
        let n = s.len() - 1;
        let front = s.drop_last();
        let one = T::emit(&s.last());
        let mid = rest.prepend(one.bytes);
        assert(s.take(n) =~= front);
        assert(s.take(n + 1) =~= s);
        lemma_emit_all_step::<T, C>(s, n);
        lemma_prepend_prepend(rest, emit_all::<T, C>(front).bytes, one.bytes);
        assert forall|i: int| 0 <= i < front.len() implies #[trigger] T::src_valid(&front[i]) by {
            assert(T::src_valid(&s[i]));
        }
        assert(T::src_valid(&s[n]));
        lemma_dec_n_round_trip::<T, C>(front, mid);
        T::lemma_round_trip(&s.last(), rest);
        assert(src_vals::<T, C>(front).push(T::src_val(&s.last())) =~= src_vals::<T, C>(s));
    }
    lemma_dec_n::<T, C>(s.len(), inp);
    crate::schema::elems::lemma_emit_all::<T, C>(s);
}

/// Reads `len` values and puts them at the end of `dst`. It is an error if there are fewer, or if
/// one of them cannot be read; `dst` is then left as it was.
pub fn decode_into_slice_t<'de, T, C, R>(
    reader: &mut R,
    len: usize,
    dst: &mut Vec<T::Dst>,
) -> (r: ReadResult<()>) where C: ConfigCore, T: SchemaRead<'de, C>, R: Reader<'de>
    ensures
        final(reader).input().follows(old(reader).input()),
        r is Err ==> final(dst)@ == old(dst)@,
        r is Ok ==> {
            &&& final(dst)@.len() == old(dst)@.len() + len
            &&& final(dst)@.take(old(dst)@.len() as int) == old(dst)@
        },
        T::read_lawful() ==> match dec_window::<T, C>(len as nat, old(reader).input()) {
            Ok((vs, rest)) => {
                &&& r is Ok
                &&& dst_vals::<T, C>(final(dst)@.skip(old(dst)@.len() as int)) == vs
                &&& final(reader).input() == rest
            },
            Err(f) => {
                &&& r == Err::<(), ReadError>(f.err)
                &&& final(reader).input() == f.left
            },
        },
{
    let ghost inp = reader.input();
    let ghost before = dst@;
    expect_window(reader, T::type_meta(), len)?;
    let start: usize = dst.len();
    let mut i: usize = 0;
    proof {
        assert(dst@.skip(start as int) =~= Seq::empty());
        assert(dst_vals::<T, C>(dst@.skip(start as int)) =~= Seq::empty());
    }
    while i < len
        invariant
            i <= len,
            inp == old(reader).input(),
            before == old(dst)@,
            start == before.len(),
            window_err(T::read_meta(), len as nat, inp) is None,
            reader.input().follows(inp),
            dst@.len() == start + i,
            dst@.take(start as int) == before,
            T::read_lawful() ==> dec_n::<T, C>(i as nat, inp) == Ok::<_, Fault>(
                (dst_vals::<T, C>(dst@.skip(start as int)), reader.input()),
            ),
        decreases len - i,
    {
        match T::get(reader) {
            Ok(value) => {
                let ghost sofar = dst@;
                dst.push(value);
                proof {
                    assert(dst@.take(start as int) =~= before);
                    assert(dst@.skip(start as int) =~= sofar.skip(start as int).push(value));
                    assert(dst_vals::<T, C>(dst@.skip(start as int)) =~= dst_vals::<T, C>(
                        sofar.skip(start as int),
                    ).push(T::dst_val(&value)));
                }
            },
            Err(e) => {
                dst.truncate(start);
                proof {
                    assert(dst@ =~= before);
                    lemma_dec_n_err::<T, C>((i + 1) as nat, len as nat, inp);
                }
                return Err(e);
            },
        }
        i = i + 1;
    }
    Ok(())
}

/// Reads `len` values.
pub fn decode_vec<'de, T, C, R>(reader: &mut R, len: usize) -> (r: ReadResult<Vec<T::Dst>>) where
    C: ConfigCore,
    T: SchemaRead<'de, C>,
    R: Reader<'de>,

    ensures
        final(reader).input().follows(old(reader).input()),
        r matches Ok(out) ==> out@.len() == len,
        T::read_lawful() ==> match dec_window::<T, C>(len as nat, old(reader).input()) {
            Ok((vs, rest)) => {
                &&& r is Ok
                &&& dst_vals::<T, C>(r->Ok_0@) == vs
                &&& final(reader).input() == rest
            },
            Err(f) => r is Err && r->Err_0 == f.err && final(reader).input() == f.left,
        },
{
    let mut out: Vec<T::Dst> = Vec::new();
    decode_into_slice_t::<T, C, R>(reader, len, &mut out)?;
    proof {
        assert(out@.skip(0) =~= out@);
    }
    Ok(out)
}

} // verus!
