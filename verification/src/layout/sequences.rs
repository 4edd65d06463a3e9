//! What the bytes of sequences are.
use crate::config::{Config, ConfigCore};
use crate::error::ReadError;
use crate::len::{prealloc_ok, prealloc_read_error, prealloc_write_error, SeqLen};
use crate::model::{Fault, Input};
use crate::schema::containers;
use crate::schema::containers::decode::dec_n;
use crate::schema::containers::heap::{MaxHeap, Ranked};
use crate::schema::containers::list::LinkedList;
use crate::schema::context;
use crate::schema::elems::{emit_all, size_err_all};
use crate::schema::{RoundTrip, SchemaRead, SchemaReadContext, SchemaWrite, TypeMeta};
use std::collections::VecDeque;
use std::rc::Rc;
use std::sync::Arc;
use vstd::layout;
use vstd::prelude::*;

verus! {

/// What elements come to when they are written one after the other.
proof fn lemma_elements<C: ConfigCore, T: SchemaWrite<C>>(s: Seq<T::Src>)
    ensures
        (forall|i: int| 0 <= i < s.len() ==> (#[trigger] T::emit(&s[i])).err is None) ==> {
            &&& emit_all::<T, C>(s).err is None
            &&& emit_all::<T, C>(s).bytes == s.map_values(|x: T::Src| T::emit(&x).bytes).flatten()
        },
        (forall|i: int| 0 <= i < s.len() ==> (#[trigger] T::size_err(&s[i])) is None)
            ==> size_err_all::<T, C>(s) is None,
        emit_all::<T, C>(s).weight == s.map_values(|x: T::Src| T::emit(&x).weight).fold_left(
            0nat,
            |a: nat, b: nat| a + b,
        ),
    decreases s.len(),
{
    let f = |x: T::Src| T::emit(&x).bytes;
    let g = |x: T::Src| T::emit(&x).weight;
    if s.len() > 0 {
        let front = s.drop_last();
        lemma_elements::<C, T>(front);
        assert(forall|i: int| 0 <= i < front.len() ==> front[i] == s[i]);
        assert(s.map_values(f) =~= front.map_values(f).push(T::emit(&s.last()).bytes));
        front.map_values(f).lemma_flatten_push(T::emit(&s.last()).bytes);
        assert(s.map_values(g).drop_last() =~= front.map_values(g));
        if forall|i: int| 0 <= i < s.len() ==> (#[trigger] T::emit(&s[i])).err is None {
            assert forall|i: int| 0 <= i < front.len() implies (#[trigger] T::emit(
                &front[i],
            )).err is None by {
                assert(T::emit(&s[i]).err is None);
            }
            assert(T::emit(&s[s.len() - 1]).err is None);
        }
        if forall|i: int| 0 <= i < s.len() ==> (#[trigger] T::size_err(&s[i])) is None {
            assert forall|i: int| 0 <= i < front.len() implies (#[trigger] T::size_err(
                &front[i],
            )) is None by {
                assert(T::size_err(&s[i]) is None);
            }
            assert(T::size_err(&s[s.len() - 1]) is None);
        }
    } else {
        assert(s.map_values(f) =~= Seq::empty());
        assert(s.map_values(g) =~= Seq::empty());
    }
}

/// What elements come to up to the first that cannot be written, or has no size.
proof fn lemma_elements_up_to<C: ConfigCore, T: SchemaWrite<C>>(s: Seq<T::Src>, k: int)
    requires
        0 <= k < s.len(),
    ensures
        (forall|i: int| 0 <= i < k ==> (#[trigger] T::emit(&s[i])).err is None) && T::emit(
            &s[k],
        ).err is Some ==> {
            &&& emit_all::<T, C>(s).err == T::emit(&s[k]).err
            &&& emit_all::<T, C>(s).bytes == s.take(k).map_values(
                |x: T::Src| T::emit(&x).bytes,
            ).flatten() + T::emit(&s[k]).bytes
        },
        (forall|i: int| 0 <= i < k ==> (#[trigger] T::size_err(&s[i])) is None) && T::size_err(
            &s[k],
        ) is Some ==> size_err_all::<T, C>(s) == T::size_err(&s[k]),
    decreases s.len(),
{
    let front = s.drop_last();
    if k < s.len() - 1 {
        lemma_elements_up_to::<C, T>(front, k);
        assert(front.take(k) =~= s.take(k));
        assert(front[k] == s[k]);
    } else {
        assert(front =~= s.take(k));
        lemma_elements::<C, T>(front);
    }
    if forall|i: int| 0 <= i < k ==> (#[trigger] T::emit(&s[i])).err is None {
        assert forall|i: int| 0 <= i < k implies (#[trigger] T::emit(&front[i])).err is None by {
            assert(T::emit(&s[i]).err is None);
        }
    }
    if forall|i: int| 0 <= i < k ==> (#[trigger] T::size_err(&s[i])) is None {
        assert forall|i: int| 0 <= i < k implies (#[trigger] T::size_err(&front[i])) is None by {
            assert(T::size_err(&s[i]) is None);
        }
    }
}

/// The bytes of an array are those of its elements, one after the other, and nothing else.
pub proof fn law_array_bytes<C: ConfigCore, T: SchemaWrite<C>, const N: usize>(a: [T::Src; N])
    ensures
        (forall|i: int| 0 <= i < N ==> (#[trigger] T::emit(&a@[i])).err is None) ==> {
            &&& <[T; N] as SchemaWrite<C>>::emit(&a).err is None
            &&& <[T; N] as SchemaWrite<C>>::emit(&a).bytes == a@.map_values(
                |x: T::Src| T::emit(&x).bytes,
            ).flatten()
        },
        <[T; N] as SchemaWrite<C>>::emit(&a).weight == a@.map_values(
            |x: T::Src| T::emit(&x).weight,
        ).fold_left(0nat, |a: nat, b: nat| a + b),
        <[T; N] as SchemaWrite<C>>::src_val(&a) == a@.map_values(|x: T::Src| T::src_val(&x)),
        <[T; N] as SchemaWrite<C>>::write_lawful() == T::write_lawful(),
        <[T; N] as SchemaWrite<C>>::write_meta() == match T::write_meta() {
            TypeMeta::Static { size, zero_copy } => if N * size <= usize::MAX {
                TypeMeta::Static { size: (N * size) as usize, zero_copy }
            } else {
                TypeMeta::Dynamic
            },
            TypeMeta::Dynamic => TypeMeta::Dynamic,
        },
        <[T; N] as SchemaWrite<C>>::write_meta() is Static ==> <[T; N] as SchemaWrite<
            C,
        >>::size_err(&a) is None,
        (forall|i: int| 0 <= i < N ==> (#[trigger] T::size_err(&a@[i])) is None) ==> <[
            T;
            N
        ] as SchemaWrite<C>>::size_err(&a) is None,
{
    assert(a@.len() == N);
    lemma_elements::<C, T>(a@);
}

/// An array is written up to the first element that cannot be, and for the reason that this one
/// cannot.
pub proof fn law_array_stops_at_the_first_error<C: ConfigCore, T: SchemaWrite<C>, const N: usize>(
    a: [T::Src; N],
    k: int,
)
    requires
        0 <= k < N,
    ensures
        (forall|i: int| 0 <= i < k ==> (#[trigger] T::emit(&a@[i])).err is None) && T::emit(
            &a@[k],
        ).err is Some ==> {
            &&& <[T; N] as SchemaWrite<C>>::emit(&a).err == T::emit(&a@[k]).err
            &&& <[T; N] as SchemaWrite<C>>::emit(&a).bytes == a@.take(k).map_values(
                |x: T::Src| T::emit(&x).bytes,
            ).flatten() + T::emit(&a@[k]).bytes
        },
        <[T; N] as SchemaWrite<C>>::write_meta() is Dynamic && (forall|i: int|
            0 <= i < k ==> (#[trigger] T::size_err(&a@[i])) is None) && T::size_err(&a@[k]) is Some
            ==> <[T; N] as SchemaWrite<C>>::size_err(&a) == T::size_err(&a@[k]),
{
    assert(a@.len() == N);
    lemma_elements_up_to::<C, T>(a@, k);
}

/// The bytes of a vector are its length and then those of its elements, one after the other. One that
/// would ask for too much memory on read-back is refused, and nothing of it is written.
pub proof fn law_vector_bytes<C: ConfigCore, T: SchemaWrite<C>, Len: SeqLen<C>>(v: Vec<T::Src>)
    ensures
        prealloc_ok::<C, T::Src>(v@.len()) && Len::len_emit(v@.len()).err is None && (forall|i: int|
            0 <= i < v@.len() ==> (#[trigger] T::emit(&v@[i])).err is None) ==> {
            &&& <containers::Vec<T, Len> as SchemaWrite<C>>::emit(&v).err is None
            &&& <containers::Vec<T, Len> as SchemaWrite<C>>::emit(&v).bytes
                == Len::len_emit(v@.len()).bytes + v@.map_values(
                |x: T::Src| T::emit(&x).bytes,
            ).flatten()
        },
        prealloc_ok::<C, T::Src>(v@.len()) ==> (Len::len_emit(v@.len()).err is Some ==> {
            &&& <containers::Vec<T, Len> as SchemaWrite<C>>::emit(&v).err
                == Len::len_emit(v@.len()).err
            &&& <containers::Vec<T, Len> as SchemaWrite<C>>::emit(&v).bytes
                == Len::len_emit(v@.len()).bytes
        }),
        !prealloc_ok::<C, T::Src>(v@.len()) ==> {
            &&& <containers::Vec<T, Len> as SchemaWrite<C>>::emit(&v).err
                == Some(prealloc_write_error::<C, T::Src>(v@.len()))
            &&& <containers::Vec<T, Len> as SchemaWrite<C>>::emit(&v).bytes.len() == 0
        },
        <containers::Vec<T, Len> as SchemaWrite<C>>::emit(&v).weight
            == Len::len_emit(v@.len()).weight + v@.map_values(
            |x: T::Src| T::emit(&x).weight,
        ).fold_left(0nat, |a: nat, b: nat| a + b),
        Len::len_emit(v@.len()).err is Some
            ==> <containers::Vec<T, Len> as SchemaWrite<C>>::size_err(&v) == Len::len_emit(
            v@.len(),
        ).err,
        Len::len_emit(v@.len()).err is None && (T::write_meta() is Static || forall|i: int|
            0 <= i < v@.len() ==> (#[trigger] T::size_err(&v@[i])) is None)
                ==> <containers::Vec<T, Len> as SchemaWrite<C>>::size_err(
            &v,
        ) is None,
        <containers::Vec<T, Len> as SchemaWrite<C>>::src_val(&v)
            == v@.map_values(|x: T::Src| T::src_val(&x)),
        <containers::Vec<T, Len> as SchemaWrite<C>>::write_lawful() == T::write_lawful(),
        <containers::Vec<T, Len> as SchemaWrite<C>>::write_meta() is Dynamic,
{
    assert(v@.len() == v.len());
    Len::lemma_len_emit(v@.len());
    lemma_elements::<C, T>(v@);
}

/// It is written up to the first element that cannot be, and for the reason that this one cannot.
pub proof fn law_vector_stops_at_the_first_error<C: ConfigCore, T: SchemaWrite<C>,
    Len: SeqLen<C>>(v: Vec<T::Src>, k: int)
    requires
        0 <= k < v@.len(),
        Len::len_emit(v@.len()).err is None,
    ensures
        prealloc_ok::<C, T::Src>(v@.len()) && (forall|i: int|
            0 <= i < k ==> (#[trigger] T::emit(&v@[i])).err is None) && T::emit(&v@[k]).err is Some
            ==> {
            &&& <containers::Vec<T, Len> as SchemaWrite<C>>::emit(&v).err == T::emit(&v@[k]).err
            &&& <containers::Vec<T, Len> as SchemaWrite<C>>::emit(&v).bytes
                == Len::len_emit(v@.len()).bytes + (v@.take(k).map_values(
                |x: T::Src| T::emit(&x).bytes,
            ).flatten() + T::emit(&v@[k]).bytes)
        },
        T::write_meta() is Dynamic && (forall|i: int|
            0 <= i < k ==> (#[trigger] T::size_err(&v@[i])) is None) && T::size_err(&v@[k]) is Some
            ==> <containers::Vec<T, Len> as SchemaWrite<C>>::size_err(&v) == T::size_err(&v@[k]),
{
    Len::lemma_len_emit(v@.len());
    lemma_elements_up_to::<C, T>(v@, k);
}

/// The bytes of a slice are those of a vector, whatever memory that would ask for.
pub proof fn law_slice_bytes<'a, C: Config, T: SchemaWrite<C>>(v: &'a [T::Src])
    ensures
        C::LengthEncoding::len_emit(v@.len()).err is None && (forall|i: int|
            0 <= i < v@.len() ==> (#[trigger] T::emit(&v@[i])).err is None) ==> {
            &&& <&'a [T] as SchemaWrite<C>>::emit(&v).err is None
            &&& <&'a [T] as SchemaWrite<C>>::emit(&v).bytes
                == C::LengthEncoding::len_emit(v@.len()).bytes + v@.map_values(
                |x: T::Src| T::emit(&x).bytes,
            ).flatten()
        },
        (C::LengthEncoding::len_emit(v@.len()).err is Some ==> {
            &&& <&'a [T] as SchemaWrite<C>>::emit(&v).err
                == C::LengthEncoding::len_emit(v@.len()).err
            &&& <&'a [T] as SchemaWrite<C>>::emit(&v).bytes
                == C::LengthEncoding::len_emit(v@.len()).bytes
        }),
        <&'a [T] as SchemaWrite<C>>::emit(&v).weight
            == C::LengthEncoding::len_emit(v@.len()).weight + v@.map_values(
            |x: T::Src| T::emit(&x).weight,
        ).fold_left(0nat, |a: nat, b: nat| a + b),
        C::LengthEncoding::len_emit(v@.len()).err is Some
            ==> <&'a [T] as SchemaWrite<C>>::size_err(&v) == C::LengthEncoding::len_emit(
            v@.len(),
        ).err,
        C::LengthEncoding::len_emit(v@.len()).err is None
            && (T::write_meta() is Static || forall|i: int|
            0 <= i < v@.len() ==> (#[trigger] T::size_err(&v@[i])) is None)
                ==> <&'a [T] as SchemaWrite<C>>::size_err(
            &v,
        ) is None,
        <&'a [T] as SchemaWrite<C>>::src_val(&v) == v@.map_values(|x: T::Src| T::src_val(&x)),
        <&'a [T] as SchemaWrite<C>>::write_lawful() == T::write_lawful(),
        <&'a [T] as SchemaWrite<C>>::write_meta() is Dynamic,
{
    C::LengthEncoding::lemma_len_emit(v@.len());
    lemma_elements::<C, T>(v@);
}

/// It is written up to the first element that cannot be, and for the reason that this one cannot.
pub proof fn law_slice_stops_at_the_first_error<'a, C: Config, T: SchemaWrite<C>>(
    v: &'a [T::Src], k: int)
    requires
        0 <= k < v@.len(),
        C::LengthEncoding::len_emit(v@.len()).err is None,
    ensures
        (forall|i: int|
            0 <= i < k ==> (#[trigger] T::emit(&v@[i])).err is None) && T::emit(&v@[k]).err is Some
            ==> {
            &&& <&'a [T] as SchemaWrite<C>>::emit(&v).err == T::emit(&v@[k]).err
            &&& <&'a [T] as SchemaWrite<C>>::emit(&v).bytes
                == C::LengthEncoding::len_emit(v@.len()).bytes + (v@.take(k).map_values(
                |x: T::Src| T::emit(&x).bytes,
            ).flatten() + T::emit(&v@[k]).bytes)
        },
        T::write_meta() is Dynamic && (forall|i: int|
            0 <= i < k ==> (#[trigger] T::size_err(&v@[i])) is None) && T::size_err(&v@[k]) is Some
            ==> <&'a [T] as SchemaWrite<C>>::size_err(&v) == T::size_err(&v@[k]),
{
    C::LengthEncoding::lemma_len_emit(v@.len());
    lemma_elements_up_to::<C, T>(v@, k);
}

/// Elements are read each where the one before it ended, up to the first that cannot be read.
proof fn lemma_chain<'de, C: ConfigCore, T: SchemaRead<'de, C>>(
    n: nat,
    inp: Input,
    vs: Seq<T::Val>,
    mids: Seq<Input>,
)
    requires
        vs.len() <= n,
        mids.len() == vs.len() + 1,
        mids[0] == inp,
        forall|i: int|
            0 <= i < vs.len() ==> T::dec(#[trigger] mids[i]) == Ok::<(T::Val, Input), Fault>(
                (vs[i], mids[i + 1]),
            ),
    ensures
        vs.len() == n ==> dec_n::<T, C>(n, inp) == Ok::<(Seq<T::Val>, Input), Fault>(
            (vs, mids[n as int]),
        ),
        vs.len() < n ==> (T::dec(mids[vs.len() as int]) matches Err(f) ==> dec_n::<T, C>(n, inp)
            == Err::<(Seq<T::Val>, Input), Fault>(f)),
    decreases n,
{
    if n > 0 {
        let m = (n - 1) as nat;
        if vs.len() < n {
            lemma_chain::<C, T>(m, inp, vs, mids);
        } else {
            let front = vs.drop_last();
            let before = mids.drop_last();
            assert(before[0] == inp);
            assert forall|i: int| 0 <= i < front.len() implies T::dec(#[trigger] before[i]) == Ok::<
                (T::Val, Input),
                Fault,
            >((front[i], before[i + 1])) by {
                assert(T::dec(mids[i]) == Ok::<(T::Val, Input), Fault>((vs[i], mids[i + 1])));
            }
            lemma_chain::<C, T>(m, inp, front, before);
            assert(T::dec(mids[m as int]) == Ok::<(T::Val, Input), Fault>(
                (vs[m as int], mids[m as int + 1]),
            ));
            assert(front.push(vs[m as int]) =~= vs);
        }
    } else {
        assert(vs =~= Seq::empty());
    }
}

/// Elements of a known number are read in turn, each where the one before it ended, up to the first
/// that cannot be read. With a known size nothing is read unless there are bytes enough for all.
pub proof fn law_elements_are_read_in_turn<'de, C: ConfigCore, T: SchemaRead<'de, C>>(
    n: usize,
    inp: Input,
    vs: Seq<T::Val>,
    mids: Seq<Input>,
)
    requires
        vs.len() <= n,
        mids.len() == vs.len() + 1,
        mids[0] == inp,
        forall|i: int|
            0 <= i < vs.len() ==> T::dec(#[trigger] mids[i]) == Ok::<(T::Val, Input), Fault>(
                (vs[i], mids[i + 1]),
            ),
    ensures
        T::read_meta() matches TypeMeta::Static { size, .. } ==> {
            &&& n * size > usize::MAX
                ==> <Vec<T> as SchemaReadContext<'de, C, context::Len>>::context_dec(
                    context::Len(n), inp) == Err::<
                (Seq<T::Val>, Input),
                Fault,
            >((Fault { err: ReadError::LengthEncodingOverflow("usize::MAX"), left: inp }))
            &&& n * size <= usize::MAX && inp.bytes.len() < n * size
                ==> <Vec<T> as SchemaReadContext<'de, C, context::Len>>::context_dec(
                context::Len(n),
                inp,
            ) == Err::<(Seq<T::Val>, Input), Fault>(
                (Fault {
                    err: ReadError::Io(crate::io::ReadError::ReadSizeLimit((n * size) as usize)),
                    left: inp,
                }),
            )
        },
        (T::read_meta() matches TypeMeta::Static { size, .. } ==> n * size <= usize::MAX && n * size
            <= inp.bytes.len()) ==> {
            &&& vs.len() == n
                ==> <Vec<T> as SchemaReadContext<'de, C, context::Len>>::context_dec(
                    context::Len(n), inp) == Ok::<
                (Seq<T::Val>, Input),
                Fault,
            >((vs, mids[n as int]))
            &&& vs.len() < n ==> (T::dec(mids[vs.len() as int]) matches Err(f)
                ==> <Vec<T> as SchemaReadContext<'de, C, context::Len>>::context_dec(
                    context::Len(n), inp) == Err::<
                (Seq<T::Val>, Input),
                Fault,
            >(f))
        },
        <Vec<T> as SchemaReadContext<'de, C, context::Len>>::context_lawful() == T::read_lawful(),
{
    lemma_chain::<C, T>(n as nat, inp, vs, mids);
}

/// An array is read as so many elements, and a vector as its length, of which the memory that it
/// asks for is checked, and then as so many elements.
pub proof fn law_sequence_reads<
    'de,
    C: ConfigCore,
    T: SchemaRead<'de, C>,
    Len: SeqLen<C>,
    const N: usize,
>(a: [T::Dst; N], v: Vec<T::Dst>, inp: Input)
    ensures
        <[T; N] as SchemaRead<'de, C>>::dec(inp)
            == <Vec<T> as SchemaReadContext<'de, C, context::Len>>::context_dec(context::Len(N),
                inp),
        <containers::Vec<T, Len> as SchemaRead<'de, C>>::dec(inp) == match Len::len_dec(inp) {
            Ok((n, mid)) => if prealloc_ok::<C, T::Dst>(n) {
                <Vec<T> as SchemaReadContext<'de, C, context::Len>>::context_dec(
                    context::Len(n as usize), mid)
            } else {
                Err::<(Seq<T::Val>, Input), Fault>(
                    (Fault { err: prealloc_read_error::<C, T::Dst>(n), left: mid }),
                )
            },
            Err(f) => Err(f),
        },
        <[T; N] as SchemaRead<'de, C>>::dst_val(&a) == a@.map_values(|x: T::Dst| T::dst_val(&x)),
        <containers::Vec<T, Len> as SchemaRead<'de, C>>::dst_val(&v)
            == v@.map_values(|x: T::Dst| T::dst_val(&x)),
        <Vec<T> as SchemaReadContext<'de, C, context::Len>>::context_val(&v)
            == v@.map_values(|x: T::Dst| T::dst_val(&x)),
        <[T; N] as SchemaRead<'de, C>>::read_lawful() == T::read_lawful(),
        <containers::Vec<T, Len> as SchemaRead<'de, C>>::read_lawful() == T::read_lawful(),
        <[T; N] as SchemaRead<'de, C>>::read_meta() == match T::read_meta() {
            TypeMeta::Static { size, zero_copy } => if N * size <= usize::MAX {
                TypeMeta::Static { size: (N * size) as usize, zero_copy }
            } else {
                TypeMeta::Dynamic
            },
            TypeMeta::Dynamic => TypeMeta::Dynamic,
        },
        <containers::Vec<T, Len> as SchemaRead<'de, C>>::read_meta() is Dynamic,
{
    Len::lemma_len_dec(inp);
}

/// Deques and slices behind a pointer are laid out as vectors of the same elements.
pub proof fn law_sequences_are_written_alike<C: ConfigCore, T: SchemaWrite<C>, Len: SeqLen<C>>(
    v: Vec<T::Src>,
    d: VecDeque<T::Src>,
    b: Box<[T::Src]>,
    rc: Rc<[T::Src]>,
    arc: Arc<[T::Src]>,
)
    ensures
        d@ == v@ ==> {
            &&& <containers::VecDeque<T, Len> as SchemaWrite<C>>::emit(&d)
                == <containers::Vec<T, Len> as SchemaWrite<C>>::emit(&v)
            &&& <containers::VecDeque<T, Len> as SchemaWrite<C>>::size_err(&d)
                == <containers::Vec<T, Len> as SchemaWrite<C>>::size_err(&v)
            &&& <containers::VecDeque<T, Len> as SchemaWrite<C>>::src_val(&d)
                == <containers::Vec<T, Len> as SchemaWrite<C>>::src_val(&v)
        },
        <containers::VecDeque<T, Len> as SchemaWrite<C>>::write_lawful() == T::write_lawful(),
        <containers::VecDeque<T, Len> as SchemaWrite<C>>::write_meta() is Dynamic,
        b@ == v@ ==> {
            &&& <containers::Box<[T], Len> as SchemaWrite<C>>::emit(&b)
                == <containers::Vec<T, Len> as SchemaWrite<C>>::emit(&v)
            &&& <containers::Box<[T], Len> as SchemaWrite<C>>::size_err(&b)
                == <containers::Vec<T, Len> as SchemaWrite<C>>::size_err(&v)
            &&& <containers::Box<[T], Len> as SchemaWrite<C>>::src_val(&b)
                == <containers::Vec<T, Len> as SchemaWrite<C>>::src_val(&v)
        },
        <containers::Box<[T], Len> as SchemaWrite<C>>::write_lawful() == T::write_lawful(),
        <containers::Box<[T], Len> as SchemaWrite<C>>::write_meta() is Dynamic,
        rc@ == v@ ==> {
            &&& <containers::Rc<[T], Len> as SchemaWrite<C>>::emit(&rc)
                == <containers::Vec<T, Len> as SchemaWrite<C>>::emit(&v)
            &&& <containers::Rc<[T], Len> as SchemaWrite<C>>::size_err(&rc)
                == <containers::Vec<T, Len> as SchemaWrite<C>>::size_err(&v)
            &&& <containers::Rc<[T], Len> as SchemaWrite<C>>::src_val(&rc)
                == <containers::Vec<T, Len> as SchemaWrite<C>>::src_val(&v)
        },
        <containers::Rc<[T], Len> as SchemaWrite<C>>::write_lawful() == T::write_lawful(),
        <containers::Rc<[T], Len> as SchemaWrite<C>>::write_meta() is Dynamic,
        arc@ == v@ ==> {
            &&& <containers::Arc<[T], Len> as SchemaWrite<C>>::emit(&arc)
                == <containers::Vec<T, Len> as SchemaWrite<C>>::emit(&v)
            &&& <containers::Arc<[T], Len> as SchemaWrite<C>>::size_err(&arc)
                == <containers::Vec<T, Len> as SchemaWrite<C>>::size_err(&v)
            &&& <containers::Arc<[T], Len> as SchemaWrite<C>>::src_val(&arc)
                == <containers::Vec<T, Len> as SchemaWrite<C>>::src_val(&v)
        },
        <containers::Arc<[T], Len> as SchemaWrite<C>>::write_lawful() == T::write_lawful(),
        <containers::Arc<[T], Len> as SchemaWrite<C>>::write_meta() is Dynamic,
{
}

/// Deques and slices behind a pointer are read as vectors of the same elements.
pub proof fn law_sequences_are_read_alike<'de, C: ConfigCore, T: SchemaRead<'de, C>,
    Len: SeqLen<C>>(
    v: Vec<T::Dst>,
    d: VecDeque<T::Dst>,
    b: Box<[T::Dst]>,
    rc: Rc<[T::Dst]>,
    arc: Arc<[T::Dst]>,
    inp: Input,
)
    ensures
        d@ == v@ ==> <containers::VecDeque<T, Len> as SchemaRead<'de, C>>::dst_val(&d)
            == <containers::Vec<T, Len> as SchemaRead<'de, C>>::dst_val(&v),
        <containers::VecDeque<T, Len> as SchemaRead<'de, C>>::dec(inp)
            == <containers::Vec<T, Len> as SchemaRead<'de, C>>::dec(inp),
        <containers::VecDeque<T, Len> as SchemaRead<'de, C>>::read_lawful() == T::read_lawful(),
        <containers::VecDeque<T, Len> as SchemaRead<'de, C>>::read_meta() is Dynamic,
        b@ == v@ ==> <containers::Box<[T], Len> as SchemaRead<'de, C>>::dst_val(&b)
            == <containers::Vec<T, Len> as SchemaRead<'de, C>>::dst_val(&v),
        <containers::Box<[T], Len> as SchemaRead<'de, C>>::dec(inp)
            == <containers::Vec<T, Len> as SchemaRead<'de, C>>::dec(inp),
        <containers::Box<[T], Len> as SchemaRead<'de, C>>::read_lawful() == T::read_lawful(),
        <containers::Box<[T], Len> as SchemaRead<'de, C>>::read_meta() is Dynamic,
        rc@ == v@
            ==> <containers::Rc<[T], Len> as SchemaRead<'de, C>>::dst_val(&rc)
                == <containers::Vec<T, Len> as SchemaRead<'de, C>>::dst_val(&v),
        <containers::Rc<[T], Len> as SchemaRead<'de, C>>::dec(inp)
            == <containers::Vec<T, Len> as SchemaRead<'de, C>>::dec(inp),
        <containers::Rc<[T], Len> as SchemaRead<'de, C>>::read_lawful() == T::read_lawful(),
        <containers::Rc<[T], Len> as SchemaRead<'de, C>>::read_meta() is Dynamic,
        arc@ == v@
            ==> <containers::Arc<[T], Len> as SchemaRead<'de, C>>::dst_val(&arc)
                == <containers::Vec<T, Len> as SchemaRead<'de, C>>::dst_val(&v),
        <containers::Arc<[T], Len> as SchemaRead<'de, C>>::dec(inp)
            == <containers::Vec<T, Len> as SchemaRead<'de, C>>::dec(inp),
        <containers::Arc<[T], Len> as SchemaRead<'de, C>>::read_lawful() == T::read_lawful(),
        <containers::Arc<[T], Len> as SchemaRead<'de, C>>::read_meta() is Dynamic,
{
}

/// Sequences without a length encoding of their own have that of the configuration.
pub proof fn law_plain_sequences_are_written_alike<C: Config, T: SchemaWrite<C>>(
    v: Vec<T::Src>,
    w: Vec<T::Src>,
    d: VecDeque<T::Src>,
    b: Box<[T::Src]>,
    rc: Rc<[T::Src]>,
    arc: Arc<[T::Src]>,
    l: LinkedList<T::Src>,
)
    ensures
        w@ == v@ ==> {
            &&& <Vec<T> as SchemaWrite<C>>::emit(&w)
                == <containers::Vec<T, C::LengthEncoding> as SchemaWrite<C>>::emit(&v)
            &&& <Vec<T> as SchemaWrite<C>>::size_err(&w)
                == <containers::Vec<T, C::LengthEncoding> as SchemaWrite<C>>::size_err(&v)
            &&& <Vec<T> as SchemaWrite<C>>::src_val(&w)
                == <containers::Vec<T, C::LengthEncoding> as SchemaWrite<C>>::src_val(&v)
        },
        <Vec<T> as SchemaWrite<C>>::write_lawful() == T::write_lawful(),
        <Vec<T> as SchemaWrite<C>>::write_meta() is Dynamic,
        d@ == v@ ==> {
            &&& <VecDeque<T> as SchemaWrite<C>>::emit(&d)
                == <containers::Vec<T, C::LengthEncoding> as SchemaWrite<C>>::emit(&v)
            &&& <VecDeque<T> as SchemaWrite<C>>::size_err(&d)
                == <containers::Vec<T, C::LengthEncoding> as SchemaWrite<C>>::size_err(&v)
            &&& <VecDeque<T> as SchemaWrite<C>>::src_val(&d)
                == <containers::Vec<T, C::LengthEncoding> as SchemaWrite<C>>::src_val(&v)
        },
        <VecDeque<T> as SchemaWrite<C>>::write_lawful() == T::write_lawful(),
        <VecDeque<T> as SchemaWrite<C>>::write_meta() is Dynamic,
        b@ == v@ ==> {
            &&& <Box<[T]> as SchemaWrite<C>>::emit(&b)
                == <containers::Vec<T, C::LengthEncoding> as SchemaWrite<C>>::emit(&v)
            &&& <Box<[T]> as SchemaWrite<C>>::size_err(&b)
                == <containers::Vec<T, C::LengthEncoding> as SchemaWrite<C>>::size_err(&v)
            &&& <Box<[T]> as SchemaWrite<C>>::src_val(&b)
                == <containers::Vec<T, C::LengthEncoding> as SchemaWrite<C>>::src_val(&v)
        },
        <Box<[T]> as SchemaWrite<C>>::write_lawful() == T::write_lawful(),
        <Box<[T]> as SchemaWrite<C>>::write_meta() is Dynamic,
        rc@ == v@ ==> {
            &&& <Rc<[T]> as SchemaWrite<C>>::emit(&rc)
                == <containers::Vec<T, C::LengthEncoding> as SchemaWrite<C>>::emit(&v)
            &&& <Rc<[T]> as SchemaWrite<C>>::size_err(&rc)
                == <containers::Vec<T, C::LengthEncoding> as SchemaWrite<C>>::size_err(&v)
            &&& <Rc<[T]> as SchemaWrite<C>>::src_val(&rc)
                == <containers::Vec<T, C::LengthEncoding> as SchemaWrite<C>>::src_val(&v)
        },
        <Rc<[T]> as SchemaWrite<C>>::write_lawful() == T::write_lawful(),
        <Rc<[T]> as SchemaWrite<C>>::write_meta() is Dynamic,
        arc@ == v@ ==> {
            &&& <Arc<[T]> as SchemaWrite<C>>::emit(&arc)
                == <containers::Vec<T, C::LengthEncoding> as SchemaWrite<C>>::emit(&v)
            &&& <Arc<[T]> as SchemaWrite<C>>::size_err(&arc)
                == <containers::Vec<T, C::LengthEncoding> as SchemaWrite<C>>::size_err(&v)
            &&& <Arc<[T]> as SchemaWrite<C>>::src_val(&arc)
                == <containers::Vec<T, C::LengthEncoding> as SchemaWrite<C>>::src_val(&v)
        },
        <Arc<[T]> as SchemaWrite<C>>::write_lawful() == T::write_lawful(),
        <Arc<[T]> as SchemaWrite<C>>::write_meta() is Dynamic,
        l@ == v@ ==> {
            &&& <LinkedList<T> as SchemaWrite<C>>::emit(&l)
                == <containers::Vec<T, C::LengthEncoding> as SchemaWrite<C>>::emit(&v)
            &&& <LinkedList<T> as SchemaWrite<C>>::size_err(&l)
                == <containers::Vec<T, C::LengthEncoding> as SchemaWrite<C>>::size_err(&v)
            &&& <LinkedList<T> as SchemaWrite<C>>::src_val(&l)
                == <containers::Vec<T, C::LengthEncoding> as SchemaWrite<C>>::src_val(&v)
        },
        <LinkedList<T> as SchemaWrite<C>>::write_lawful() == T::write_lawful(),
        <LinkedList<T> as SchemaWrite<C>>::write_meta() is Dynamic,
{
}

/// Sequences without a length encoding of their own have that of the configuration.
pub proof fn law_plain_sequences_are_read_alike<'de, C: Config, T: SchemaRead<'de, C>>(
    v: Vec<T::Dst>,
    w: Vec<T::Dst>,
    d: VecDeque<T::Dst>,
    b: Box<[T::Dst]>,
    rc: Rc<[T::Dst]>,
    arc: Arc<[T::Dst]>,
    l: LinkedList<T::Dst>,
    inp: Input,
)
    ensures
        w@ == v@ ==> <Vec<T> as SchemaRead<'de, C>>::dst_val(&w)
            == <containers::Vec<T, C::LengthEncoding> as SchemaRead<'de, C>>::dst_val(&v),
        <Vec<T> as SchemaRead<'de, C>>::dec(inp)
            == <containers::Vec<T, C::LengthEncoding> as SchemaRead<'de, C>>::dec(inp),
        <Vec<T> as SchemaRead<'de, C>>::read_lawful() == T::read_lawful(),
        <Vec<T> as SchemaRead<'de, C>>::read_meta() is Dynamic,
        d@ == v@ ==> <VecDeque<T> as SchemaRead<'de, C>>::dst_val(&d)
            == <containers::Vec<T, C::LengthEncoding> as SchemaRead<'de, C>>::dst_val(&v),
        <VecDeque<T> as SchemaRead<'de, C>>::dec(inp)
            == <containers::Vec<T, C::LengthEncoding> as SchemaRead<'de, C>>::dec(inp),
        <VecDeque<T> as SchemaRead<'de, C>>::read_lawful() == T::read_lawful(),
        <VecDeque<T> as SchemaRead<'de, C>>::read_meta() is Dynamic,
        b@ == v@ ==> <Box<[T]> as SchemaRead<'de, C>>::dst_val(&b)
            == <containers::Vec<T, C::LengthEncoding> as SchemaRead<'de, C>>::dst_val(&v),
        <Box<[T]> as SchemaRead<'de, C>>::dec(inp)
            == <containers::Vec<T, C::LengthEncoding> as SchemaRead<'de, C>>::dec(inp),
        <Box<[T]> as SchemaRead<'de, C>>::read_lawful() == T::read_lawful(),
        <Box<[T]> as SchemaRead<'de, C>>::read_meta() is Dynamic,
        rc@ == v@
            ==> <Rc<[T]> as SchemaRead<'de, C>>::dst_val(&rc)
                == <containers::Vec<T, C::LengthEncoding> as SchemaRead<'de, C>>::dst_val(&v),
        <Rc<[T]> as SchemaRead<'de, C>>::dec(inp)
            == <containers::Vec<T, C::LengthEncoding> as SchemaRead<'de, C>>::dec(inp),
        <Rc<[T]> as SchemaRead<'de, C>>::read_lawful() == T::read_lawful(),
        <Rc<[T]> as SchemaRead<'de, C>>::read_meta() is Dynamic,
        arc@ == v@
            ==> <Arc<[T]> as SchemaRead<'de, C>>::dst_val(&arc)
                == <containers::Vec<T, C::LengthEncoding> as SchemaRead<'de, C>>::dst_val(&v),
        <Arc<[T]> as SchemaRead<'de, C>>::dec(inp)
            == <containers::Vec<T, C::LengthEncoding> as SchemaRead<'de, C>>::dec(inp),
        <Arc<[T]> as SchemaRead<'de, C>>::read_lawful() == T::read_lawful(),
        <Arc<[T]> as SchemaRead<'de, C>>::read_meta() is Dynamic,
        l@ == v@ ==> <LinkedList<T> as SchemaRead<'de, C>>::dst_val(&l)
            == <containers::Vec<T, C::LengthEncoding> as SchemaRead<'de, C>>::dst_val(&v),
        <LinkedList<T> as SchemaRead<'de, C>>::dec(inp)
            == <containers::Vec<T, C::LengthEncoding> as SchemaRead<'de, C>>::dec(inp),
        <LinkedList<T> as SchemaRead<'de, C>>::read_lawful() == T::read_lawful(),
        <LinkedList<T> as SchemaRead<'de, C>>::read_meta() is Dynamic,
{
}

/// A heap is written as a vector of what it holds, in the order in which it holds it, and read as
/// one, of which only the order is lost.
pub proof fn law_heap_is_written_as_a_vector<C: Config, T: SchemaWrite<C> + Ranked, Len: SeqLen<C>>(
    v: Vec<T::Src>,
    h: MaxHeap<T::Src>,
) where T::Src: Ranked
    requires
        h@ == v@,
    ensures
        <containers::BinaryHeap<T, Len> as SchemaWrite<C>>::emit(&h)
            == <containers::Vec<T, Len> as SchemaWrite<C>>::emit(&v),
        <containers::BinaryHeap<T, Len> as SchemaWrite<C>>::size_err(&h)
            == <containers::Vec<T, Len> as SchemaWrite<C>>::size_err(&v),
        <containers::BinaryHeap<T, Len> as SchemaWrite<C>>::src_val(&h)
            == <containers::Vec<T, Len> as SchemaWrite<C>>::src_val(&v).to_multiset(),
        <containers::BinaryHeap<T, Len> as SchemaWrite<C>>::write_lawful() == T::write_lawful(),
        <containers::BinaryHeap<T, Len> as SchemaWrite<C>>::write_meta() is Dynamic,
        <MaxHeap<T> as SchemaWrite<C>>::emit(&h)
            == <containers::Vec<T, C::LengthEncoding> as SchemaWrite<C>>::emit(&v),
        <MaxHeap<T> as SchemaWrite<C>>::size_err(&h)
            == <containers::Vec<T, C::LengthEncoding> as SchemaWrite<C>>::size_err(&v),
        <MaxHeap<T> as SchemaWrite<C>>::src_val(&h)
            == <containers::Vec<T, C::LengthEncoding> as SchemaWrite<C>>::src_val(&v).to_multiset(),
        <MaxHeap<T> as SchemaWrite<C>>::write_lawful() == T::write_lawful(),
        <MaxHeap<T> as SchemaWrite<C>>::write_meta() is Dynamic,
{
}

/// See [`law_heap_is_written_as_a_vector`].
pub proof fn law_heap_is_read_as_a_vector<
    'de,
    C: Config,
    T: SchemaRead<'de, C> + Ranked,
    Len: SeqLen<C>,
>(v: Vec<T::Dst>, h: MaxHeap<T::Dst>, inp: Input) where T::Dst: Ranked
    requires
        h@ == v@,
    ensures
        match <containers::Vec<T, Len> as SchemaRead<'de, C>>::dec(inp) {
            Ok((vs, rest)) => <containers::BinaryHeap<T, Len> as SchemaRead<'de, C>>::dec(inp)
                == Ok::<(vstd::multiset::Multiset<T::Val>, Input), Fault>(
                (vs.to_multiset(), rest),
            ),
            Err(f) => <containers::BinaryHeap<T, Len> as SchemaRead<'de, C>>::dec(inp)
                == Err::<(vstd::multiset::Multiset<T::Val>, Input), Fault>(f),
        },
        <containers::BinaryHeap<T, Len> as SchemaRead<'de, C>>::dst_val(&h)
            == <containers::Vec<T, Len> as SchemaRead<'de, C>>::dst_val(&v).to_multiset(),
        <containers::BinaryHeap<T, Len> as SchemaRead<'de, C>>::read_lawful() == T::read_lawful(),
        <containers::BinaryHeap<T, Len> as SchemaRead<'de, C>>::read_meta() is Dynamic,
        match <containers::Vec<T, C::LengthEncoding> as SchemaRead<'de, C>>::dec(inp) {
            Ok((vs, rest)) => <MaxHeap<T> as SchemaRead<'de, C>>::dec(inp)
                == Ok::<(vstd::multiset::Multiset<T::Val>, Input), Fault>(
                (vs.to_multiset(), rest),
            ),
            Err(f) => <MaxHeap<T> as SchemaRead<'de, C>>::dec(inp)
                == Err::<(vstd::multiset::Multiset<T::Val>, Input), Fault>(f),
        },
        <MaxHeap<T> as SchemaRead<'de, C>>::dst_val(&h)
            == <containers::Vec<T, C::LengthEncoding> as SchemaRead<'de, C>>::dst_val(
                &v).to_multiset(),
        <MaxHeap<T> as SchemaRead<'de, C>>::read_lawful() == T::read_lawful(),
        <MaxHeap<T> as SchemaRead<'de, C>>::read_meta() is Dynamic,
{
}

/// Sequences come back from reading if their elements do, and take up the same memory as written
/// and as read.
pub proof fn law_sequences_come_back<
    'de,
    C: Config,
    T: RoundTrip<'de, C>,
    Len: SeqLen<C>,
    const N: usize,
>(
    v: Vec<T::Src>,
    a: [T::Src; N],
    d: VecDeque<T::Src>,
    b: Box<[T::Src]>,
    rc: Rc<[T::Src]>,
    arc: Arc<[T::Src]>,
    l: LinkedList<T::Src>,
)
    ensures
        <containers::Vec<T, Len> as RoundTrip<'de, C>>::round_trips()
            == (T::round_trips() && layout::size_of::<T::Src>()
            == layout::size_of::<T::Dst>()),
        <containers::Vec<T, Len> as RoundTrip<'de, C>>::src_valid(&v) == (forall|i: int|
            0 <= i < v@.len() ==> T::src_valid(&#[trigger] v@[i])),
        <containers::Vec<T, Len> as RoundTrip<'de, C>>::needs_backing() == T::needs_backing(),
        <containers::VecDeque<T, Len> as RoundTrip<'de, C>>::round_trips()
            == (T::round_trips() && layout::size_of::<T::Src>()
            == layout::size_of::<T::Dst>()),
        <containers::VecDeque<T, Len> as RoundTrip<'de, C>>::src_valid(&d) == (forall|i: int|
            0 <= i < d@.len() ==> T::src_valid(&#[trigger] d@[i])),
        <containers::VecDeque<T, Len> as RoundTrip<'de, C>>::needs_backing() == T::needs_backing(),
        <containers::Box<[T], Len> as RoundTrip<'de, C>>::round_trips()
            == (T::round_trips() && layout::size_of::<T::Src>()
            == layout::size_of::<T::Dst>()),
        <containers::Box<[T], Len> as RoundTrip<'de, C>>::src_valid(&b) == (forall|i: int|
            0 <= i < b@.len() ==> T::src_valid(&#[trigger] b@[i])),
        <containers::Box<[T], Len> as RoundTrip<'de, C>>::needs_backing() == T::needs_backing(),
        <containers::Rc<[T], Len> as RoundTrip<'de, C>>::round_trips()
            == (T::round_trips() && layout::size_of::<T::Src>()
            == layout::size_of::<T::Dst>()),
        <containers::Rc<[T], Len> as RoundTrip<'de, C>>::src_valid(&rc) == (forall|i: int|
            0 <= i < rc@.len() ==> T::src_valid(&#[trigger] rc@[i])),
        <containers::Rc<[T], Len> as RoundTrip<'de, C>>::needs_backing() == T::needs_backing(),
        <containers::Arc<[T], Len> as RoundTrip<'de, C>>::round_trips()
            == (T::round_trips() && layout::size_of::<T::Src>()
            == layout::size_of::<T::Dst>()),
        <containers::Arc<[T], Len> as RoundTrip<'de, C>>::src_valid(&arc) == (forall|i: int|
            0 <= i < arc@.len() ==> T::src_valid(&#[trigger] arc@[i])),
        <containers::Arc<[T], Len> as RoundTrip<'de, C>>::needs_backing() == T::needs_backing(),
        <Vec<T> as RoundTrip<'de, C>>::round_trips()
            == (T::round_trips() && layout::size_of::<T::Src>()
            == layout::size_of::<T::Dst>()),
        <Vec<T> as RoundTrip<'de, C>>::src_valid(&v) == (forall|i: int|
            0 <= i < v@.len() ==> T::src_valid(&#[trigger] v@[i])),
        <Vec<T> as RoundTrip<'de, C>>::needs_backing() == T::needs_backing(),
        <VecDeque<T> as RoundTrip<'de, C>>::round_trips()
            == (T::round_trips() && layout::size_of::<T::Src>()
            == layout::size_of::<T::Dst>()),
        <VecDeque<T> as RoundTrip<'de, C>>::src_valid(&d) == (forall|i: int|
            0 <= i < d@.len() ==> T::src_valid(&#[trigger] d@[i])),
        <VecDeque<T> as RoundTrip<'de, C>>::needs_backing() == T::needs_backing(),
        <Box<[T]> as RoundTrip<'de, C>>::round_trips()
            == (T::round_trips() && layout::size_of::<T::Src>()
            == layout::size_of::<T::Dst>()),
        <Box<[T]> as RoundTrip<'de, C>>::src_valid(&b) == (forall|i: int|
            0 <= i < b@.len() ==> T::src_valid(&#[trigger] b@[i])),
        <Box<[T]> as RoundTrip<'de, C>>::needs_backing() == T::needs_backing(),
        <Rc<[T]> as RoundTrip<'de, C>>::round_trips()
            == (T::round_trips() && layout::size_of::<T::Src>()
            == layout::size_of::<T::Dst>()),
        <Rc<[T]> as RoundTrip<'de, C>>::src_valid(&rc) == (forall|i: int|
            0 <= i < rc@.len() ==> T::src_valid(&#[trigger] rc@[i])),
        <Rc<[T]> as RoundTrip<'de, C>>::needs_backing() == T::needs_backing(),
        <Arc<[T]> as RoundTrip<'de, C>>::round_trips()
            == (T::round_trips() && layout::size_of::<T::Src>()
            == layout::size_of::<T::Dst>()),
        <Arc<[T]> as RoundTrip<'de, C>>::src_valid(&arc) == (forall|i: int|
            0 <= i < arc@.len() ==> T::src_valid(&#[trigger] arc@[i])),
        <Arc<[T]> as RoundTrip<'de, C>>::needs_backing() == T::needs_backing(),
        <LinkedList<T> as RoundTrip<'de, C>>::round_trips()
            == (T::round_trips() && layout::size_of::<T::Src>()
            == layout::size_of::<T::Dst>()),
        <LinkedList<T> as RoundTrip<'de, C>>::src_valid(&l) == (forall|i: int|
            0 <= i < l@.len() ==> T::src_valid(&#[trigger] l@[i])),
        <LinkedList<T> as RoundTrip<'de, C>>::needs_backing() == T::needs_backing(),
        <[T; N] as RoundTrip<'de, C>>::round_trips() == T::round_trips(),
        <[T; N] as RoundTrip<'de, C>>::src_valid(&a) == (forall|i: int|
            0 <= i < a@.len() ==> T::src_valid(&#[trigger] a@[i])),
        <[T; N] as RoundTrip<'de, C>>::needs_backing() == T::needs_backing(),
{
}

} // verus!
