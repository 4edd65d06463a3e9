//! Sequences of elements and of key-value pairs, with their length in front.
use crate::config::ConfigCore;
use crate::error::{write_length_encoding_overflow, WriteError, WriteResult};
use crate::io::Writer;
use crate::len::{len_emit_checked, limit_kept, prealloc_ok, prealloc_write_error, SeqLen};
use crate::model::{
    lemma_then_associative, lemma_then_empty_left, lemma_wrote_fail, lemma_wrote_first,
    lemma_wrote_nothing, lemma_wrote_then, Emit, Output,
};
use crate::schema::impls::tuple::{
    pair_emit, pair_size_err, size_of_pair, type_meta_of_pair, write_pair,
};
use crate::schema::{SchemaWrite, TypeMeta};
use vstd::prelude::*;
use vstd::std_specs::iter::IteratorSpec;

verus! {

/// Writing the elements of `s` one after the other.
pub open spec fn emit_all<T: SchemaWrite<C>, C: ConfigCore>(s: Seq<T::Src>) -> Emit
    decreases s.len(),
{
    if s.len() == 0 {
        Emit::done(Seq::empty())
    } else {
        emit_all::<T, C>(s.drop_last()).then_emit(T::emit(&s.last()))
    }
}

/// Why the size of some element of `s` cannot be told, by the first such element.
pub open spec fn size_err_all<T: SchemaWrite<C>, C: ConfigCore>(s: Seq<T::Src>) -> Option<
    WriteError,
>
    decreases s.len(),
{
    if s.len() == 0 {
        None
    } else {
        match size_err_all::<T, C>(s.drop_last()) {
            Some(e) => Some(e),
            None => T::size_err(&s.last()),
        }
    }
}

/// Writing a sequence: its length, and its elements.
pub open spec fn seq_emit<T: SchemaWrite<C>, Len: SeqLen<C>, C: ConfigCore>(
    s: Seq<T::Src>,
) -> Emit {
    Len::len_emit(s.len()).then_emit(emit_all::<T, C>(s))
}

/// Writing a sequence of which the memory that it asks for on read-back is checked first.
pub open spec fn seq_emit_checked<T: SchemaWrite<C>, Len: SeqLen<C>, C: ConfigCore>(
    s: Seq<T::Src>,
) -> Emit {
    len_emit_checked::<Len, C, T::Src>(s.len()).then_emit(emit_all::<T, C>(s))
}

/// Why the size of a sequence cannot be told.
pub open spec fn seq_size_err<T: SchemaWrite<C>, Len: SeqLen<C>, C: ConfigCore>(
    s: Seq<T::Src>,
) -> Option<WriteError> {
    match Len::len_emit(s.len()).err {
        Some(e) => Some(e),
        None => match T::write_meta() {
            TypeMeta::Static { .. } => None,
            TypeMeta::Dynamic => size_err_all::<T, C>(s),
        },
    }
}

/// The error of an iterator that ends before the length that it reported.
pub open spec fn short_iter_error() -> WriteError {
    WriteError::Custom("ExactSizeIterator yielded fewer elements than its reported len()")
}

fn short_iter() -> (e: WriteError)
    ensures
        e == short_iter_error(),
{
    WriteError::Custom("ExactSizeIterator yielded fewer elements than its reported len()")
}

/// Writing the first `len` of `items`, and failing if there are fewer.
pub open spec fn emit_first<T: SchemaWrite<C>, C: ConfigCore>(
    items: Seq<T::Src>,
    len: nat,
) -> Emit {
    if items.len() >= len {
        emit_all::<T, C>(items.take(len as int))
    } else {
        emit_all::<T, C>(items).then_emit(
            Emit::fail(
                short_iter_error(),
                match T::write_meta() {
                    TypeMeta::Static { size, .. } => ((len - items.len()) as nat) * (size as nat),
                    TypeMeta::Dynamic => 0,
                },
            ),
        )
    }
}

/// Writing what an iterator yields that reported the length `len`.
pub open spec fn iter_emit<T: SchemaWrite<C>, Len: SeqLen<C>, C: ConfigCore>(
    items: Seq<T::Src>,
    len: nat,
) -> Emit {
    Len::len_emit(len).then_emit(emit_first::<T, C>(items, len))
}

/// As [`iter_emit`], with a check of the memory that the sequence asks for on read-back.
pub open spec fn iter_emit_checked<T: SchemaWrite<C>, Len: SeqLen<C>, C: ConfigCore>(
    items: Seq<T::Src>,
    len: nat,
) -> Emit {
    len_emit_checked::<Len, C, T::Src>(len).then_emit(emit_first::<T, C>(items, len))
}

/// Writing elements one after the other can be split anywhere.
pub proof fn lemma_emit_all_split<T: SchemaWrite<C>, C: ConfigCore>(
    s: Seq<T::Src>,
    k: int,
)
    requires
        0 <= k <= s.len(),
    ensures
        emit_all::<T, C>(s) == emit_all::<T, C>(s.take(k)).then_emit(
            emit_all::<T, C>(s.skip(k)),
        ),
    decreases s.len(),
{
    if k == s.len() {
        assert(s.take(k) =~= s);
        let a = emit_all::<T, C>(s);
        assert(emit_all::<T, C>(s.skip(k)) == Emit::done(Seq::empty()));
        assert(a.then_emit(Emit::done(Seq::empty())).bytes =~= a.bytes);
        assert(a =~= a.then_emit(Emit::done(Seq::empty())));
    } else {
        lemma_emit_all_split::<T, C>(s.drop_last(), k);
        assert(s.drop_last().take(k) =~= s.take(k));
        assert(s.drop_last().skip(k) =~= s.skip(k).drop_last());
        lemma_then_associative(
            emit_all::<T, C>(s.take(k)),
            emit_all::<T, C>(s.skip(k).drop_last()),
            T::emit(&s.last()),
        );
    }
}

/// The first `i + 1` elements are the first `i` and one more.
pub proof fn lemma_emit_all_step<T: SchemaWrite<C>, C: ConfigCore>(
    s: Seq<T::Src>,
    i: int,
)
    requires
        0 <= i < s.len(),
    ensures
        emit_all::<T, C>(s.take(i + 1)) == emit_all::<T, C>(s.take(i)).then_emit(T::emit(&s[i])),
        emit_all::<T, C>(s.take(i)).weight + T::emit(&s[i]).weight <= emit_all::<T, C>(s).weight,
{
    assert(s.take(i + 1).drop_last() =~= s.take(i));
    lemma_emit_all_split::<T, C>(s, i + 1);
}

/// Elements written one after the other, as far as their sizes go.
pub proof fn lemma_emit_all<T: SchemaWrite<C>, C: ConfigCore>(s: Seq<T::Src>)
    ensures
        emit_all::<T, C>(s).consistent(),
        emit_all::<T, C>(s).ok() ==> size_err_all::<T, C>(s) is None,
        T::write_meta() matches TypeMeta::Static { size, .. } ==> {
            &&& emit_all::<T, C>(s).weight == s.len() * size
            &&& !emit_all::<T, C>(s).over_limit()
        },
    decreases s.len(),
{
    if s.len() > 0 {
        lemma_emit_all::<T, C>(s.drop_last());
        T::lemma_emit(&s.last());
        if let TypeMeta::Static { size, .. } = T::write_meta() {
            let n = s.len() - 1;
            assert(n * size + size == (n + 1) * size) by (nonlinear_arith);
        }
    } else if let TypeMeta::Static { size, .. } = T::write_meta() {
        assert(0 * (size as int) == 0);
    }
}

/// Elements can be written one after the other exactly if each of them can be written.
pub proof fn law_elements_are_written_if_each_can_be<T: SchemaWrite<C>, C: ConfigCore>(
    s: Seq<T::Src>,
)
    ensures
        emit_all::<T, C>(s).ok() <==> forall|i: int|
            0 <= i < s.len() ==> #[trigger] T::emit(&s[i]).ok(),
    decreases s.len(),
{
    if s.len() > 0 {
        law_elements_are_written_if_each_can_be::<T, C>(s.drop_last());
        let n = s.len() - 1;
        assert(forall|i: int| 0 <= i < n ==> s.drop_last()[i] == s[i]);
        if emit_all::<T, C>(s).ok() {
            assert forall|i: int| 0 <= i < s.len() implies #[trigger] T::emit(&s[i]).ok() by {
                if i < n {
                    assert(T::emit(&s.drop_last()[i]).ok());
                }
            }
        }
        if forall|i: int| 0 <= i < s.len() ==> #[trigger] T::emit(&s[i]).ok() {
            assert forall|i: int| 0 <= i < n implies #[trigger] T::emit(
                &s.drop_last()[i],
            ).ok() by {
                assert(T::emit(&s[i]).ok());
            }
            assert(T::emit(&s[n]).ok());
        }
    }
}

/// What is written of an iterator's items, as far as their sizes go.
pub proof fn lemma_emit_first<T: SchemaWrite<C>, C: ConfigCore>(
    items: Seq<T::Src>,
    len: nat,
)
    ensures
        emit_first::<T, C>(items, len).consistent(),
        T::write_meta() matches TypeMeta::Static { size, .. } ==> {
            &&& emit_first::<T, C>(items, len).weight == len * size
            &&& !emit_first::<T, C>(items, len).over_limit()
        },
        items.len() == len ==> emit_first::<T, C>(items, len) == emit_all::<T, C>(items),
{
    if items.len() >= len {
        lemma_emit_all::<T, C>(items.take(len as int));
        if items.len() == len {
            assert(items.take(len as int) =~= items);
        }
    } else {
        lemma_emit_all::<T, C>(items);
        if let TypeMeta::Static { size, .. } = T::write_meta() {
            let m = items.len();
            assert(m * size + (len - m) * size == len * size) by (nonlinear_arith);
        }
    }
}

/// What is written of an iterator's items when `i` of them have been written.
proof fn lemma_emit_first_split<T: SchemaWrite<C>, C: ConfigCore>(
    items: Seq<T::Src>,
    len: nat,
    i: int,
) -> (tail: Emit)
    requires
        0 <= i <= len,
        i <= items.len(),
    ensures
        emit_first::<T, C>(items, len) == emit_all::<T, C>(items.take(i)).then_emit(tail),
        i == len ==> tail == Emit::done(Seq::empty()),
        i == items.len() && i < len ==> tail.err == Some(short_iter_error()) && tail.bytes.len()
            == 0,
{
    if items.len() >= len {
        let s = items.take(len as int);
        lemma_emit_all_split::<T, C>(s, i);
        assert(s.take(i) =~= items.take(i));
        emit_all::<T, C>(s.skip(i))
    } else {
        lemma_emit_all_split::<T, C>(items, i);
        let last = Emit::fail(
            short_iter_error(),
            match T::write_meta() {
                TypeMeta::Static { size, .. } => ((len - items.len()) as nat) * (size as nat),
                TypeMeta::Dynamic => 0,
            },
        );
        let mid = emit_all::<T, C>(items.skip(i));
        lemma_then_associative(emit_all::<T, C>(items.take(i)), mid, last);
        if i == items.len() {
            lemma_then_empty_left(last);
        }
        mid.then_emit(last)
    }
}

/// Whether the length and the first `i` items have been written on the way from `p0` to `now`.
pub open spec fn wrote_first<T: SchemaWrite<C>, Len: SeqLen<C>, C: ConfigCore>(
    items: Seq<T::Src>,
    len: nat,
    i: int,
    p0: Output,
    now: Output,
) -> bool {
    Len::len_emit(len).then_emit(emit_all::<T, C>(items.take(i))).wrote(p0, now, Ok(()))
}

proof fn lemma_iter_head<T: SchemaWrite<C>, Len: SeqLen<C>, C: ConfigCore>(
    items: Seq<T::Src>,
    len: nat,
    p0: Output,
    now: Output,
    r: WriteResult<()>,
)
    requires
        Len::len_emit(len).wrote(p0, now, r),
    ensures
        r is Ok ==> wrote_first::<T, Len, C>(items, len, 0, p0, now),
        r matches Err(e) ==> iter_emit::<T, Len, C>(items, len).wrote(p0, now, Err(e)),
{
    let head = Len::len_emit(len);
    Len::lemma_len_emit(len);
    if let Err(e) = r {
        lemma_wrote_first(head, emit_first::<T, C>(items, len), p0, now, e);
    }
    assert(items.take(0) =~= Seq::empty());
    assert(head.then_emit(Emit::done(Seq::empty())).bytes =~= head.bytes);
    assert(head.then_emit(Emit::done(Seq::empty())) =~= head);
}

proof fn lemma_iter_overlong<T: SchemaWrite<C>, Len: SeqLen<C>, C: ConfigCore>(
    items: Seq<T::Src>,
    len: nat,
    e: WriteError,
    p0: Output,
)
    requires
        Len::len_emit(len).err == Some(e),
    ensures
        iter_emit::<T, Len, C>(items, len).wrote(p0, p0, Err(e)),
{
    Len::lemma_len_emit(len);
    assert(Len::len_emit(len).bytes =~= Seq::empty());
    assert(Len::len_emit(len) =~= Emit::fail(e, 0));
    lemma_wrote_fail(e, 0, p0);
    lemma_wrote_first(Len::len_emit(len), emit_first::<T, C>(items, len), p0, p0, e);
}

proof fn lemma_iter_short<T: SchemaWrite<C>, Len: SeqLen<C>, C: ConfigCore>(
    items: Seq<T::Src>,
    len: nat,
    p0: Output,
    now: Output,
)
    ensures
        items.len() < len && wrote_first::<T, Len, C>(items, len, items.len() as int, p0, now)
            ==> iter_emit::<T, Len, C>(items, len).wrote(p0, now, Err(short_iter_error())),
{
    if items.len() < len && wrote_first::<T, Len, C>(items, len, items.len() as int, p0, now) {
        let i = items.len() as int;
        let e = short_iter_error();
        let head = Len::len_emit(len);
        let done = emit_all::<T, C>(items.take(i));
        let tail = lemma_emit_first_split::<T, C>(items, len, i);
        Len::lemma_len_emit(len);
        lemma_emit_all::<T, C>(items.take(i));
        lemma_then_associative(head, done, tail);
        assert(tail.bytes =~= Seq::empty());
        assert(tail =~= Emit::fail(e, tail.weight));
        lemma_wrote_fail(e, tail.weight, now);
        lemma_wrote_then(head.then_emit(done), tail, p0, now, now, Err(e));
    }
}

proof fn lemma_iter_step<T: SchemaWrite<C>, Len: SeqLen<C>, C: ConfigCore>(
    items: Seq<T::Src>,
    len: nat,
    i: int,
    p0: Output,
    now: Output,
    next: Output,
    r: WriteResult<()>,
)
    requires
        0 <= i < len,
    ensures
        i < items.len() ==> T::emit(&items[i]).weight <= iter_emit::<T, Len, C>(
            items,
            len,
        ).weight,
        i < items.len() && wrote_first::<T, Len, C>(items, len, i, p0, now) && T::emit(
            &items[i],
        ).wrote(now, next, r) ==> {
            &&& r is Ok ==> wrote_first::<T, Len, C>(items, len, i + 1, p0, next)
            &&& r matches Err(e) ==> iter_emit::<T, Len, C>(items, len).wrote(p0, next, Err(e))
        },
{
    if i < items.len() {
        let head = Len::len_emit(len);
        let done = emit_all::<T, C>(items.take(i));
        let one = T::emit(&items[i]);
        let tail = lemma_emit_first_split::<T, C>(items, len, i + 1);
        Len::lemma_len_emit(len);
        lemma_emit_all::<T, C>(items.take(i));
        lemma_emit_all_step::<T, C>(items, i);
        T::lemma_emit(&items[i]);
        lemma_then_associative(head, done, one);
        lemma_then_associative(head, done.then_emit(one), tail);
        if wrote_first::<T, Len, C>(items, len, i, p0, now) && one.wrote(now, next, r) {
            lemma_wrote_then(head.then_emit(done), one, p0, now, next, r);
            if let Err(e) = r {
                lemma_wrote_first(head.then_emit(done).then_emit(one), tail, p0, next, e);
            }
        }
    }
}

proof fn lemma_iter_end<T: SchemaWrite<C>, Len: SeqLen<C>, C: ConfigCore>(
    items: Seq<T::Src>,
    len: nat,
    p0: Output,
    now: Output,
)
    ensures
        len <= items.len() && wrote_first::<T, Len, C>(items, len, len as int, p0, now)
            ==> iter_emit::<T, Len, C>(items, len).wrote(p0, now, Ok(())),
{
}

/// What an iterator yields for a value of `S` that is to be written: the value, or a reference to it.
pub trait Lend<S> {
    /// The value.
    spec fn lent(&self) -> S;

    /// A reference to the value.
    fn lend(&self) -> (r: &S)
        ensures
            *r == self.lent(),
    ;
}

impl<S> Lend<S> for S {
    open spec fn lent(&self) -> S {
        *self
    }

    fn lend(&self) -> (r: &S) {
        self
    }
}

impl<'a, S> Lend<S> for &'a S {
    open spec fn lent(&self) -> S {
        **self
    }

    fn lend(&self) -> (r: &S) {
        self
    }
}

/// The values of what an iterator yields.
pub open spec fn lent_all<S, B: Lend<S>>(s: Seq<B>) -> Seq<S> {
    Seq::new(s.len(), |i: int| s[i].lent())
}

/// The values of references are what they refer to.
pub broadcast proof fn lemma_lent_refs<'a, S>(s: Seq<&'a S>)
    ensures
        #[trigger] lent_all::<S, &'a S>(s) == s.unref(),
{
    assert(lent_all::<S, &'a S>(s) =~= s.unref());
}

/// Writes the length `len` and then as many of the items of `src`. Items beyond that are left; it
/// is an error if there are fewer.
pub fn write_elem_iter<T, Len, C, W, B, I>(writer: &mut W, len: usize, src: I) -> (r: WriteResult<
    (),
>) where
    C: ConfigCore,
    Len: SeqLen<C>,
    T: SchemaWrite<C>,
    W: Writer,
    B: Lend<T::Src>,
    I: Iterator<Item = B>,

    ensures
        T::write_lawful() && src.obeys_prophetic_iter_laws() && iter_emit::<T, Len, C>(
            lent_all::<T::Src, B>(src.remaining()),
            len as nat,
        ).weight <= usize::MAX ==> iter_emit::<T, Len, C>(
            lent_all::<T::Src, B>(src.remaining()),
            len as nat,
        ).wrote(old(writer).output(), final(writer).output(), r),
{
    let ghost start = src;
    let ghost p0 = writer.output();
    if let TypeMeta::Static { size, .. } = T::type_meta() {
        proof {
            Len::lemma_len_emit(len as nat);
            lemma_emit_first::<T, C>(lent_all::<T::Src, B>(start.remaining()), len as nat);
        }
        let head: usize = match Len::write_bytes_needed(len) {
            Ok(n) => n,
            Err(e) => {
                proof {
                    lemma_iter_overlong::<T, Len, C>(
                        lent_all::<T::Src, B>(start.remaining()),
                        len as nat,
                        e,
                        p0,
                    );
                }
                return Err(e);
            },
        };
        let needed: usize = match total_size(head, len, size) {
            Some(n) => n,
            None => {
                return Err(write_length_encoding_overflow("usize::MAX"));
            },
        };
        match writer.expect_room(needed) {
            Ok(()) => {},
            Err(e) => {
                let e = WriteError::Io(e);
                proof {
                    lemma_wrote_nothing(
                        iter_emit::<T, Len, C>(
                            lent_all::<T::Src, B>(start.remaining()),
                            len as nat,
                        ),
                        p0,
                        e,
                    );
                }
                return Err(e);
            },
        }
    }
    let r = Len::write(writer, len);
    proof {
        lemma_iter_head::<T, Len, C>(
            lent_all::<T::Src, B>(start.remaining()),
            len as nat,
            p0,
            writer.output(),
            r,
        );
    }
    match r {
        Ok(()) => {},
        Err(e) => {
            return Err(e);
        },
    }
    let mut it = src;
    let mut i: usize = 0;
    while i < len
        invariant
            i <= len,
            start == src,
            p0 == old(writer).output(),
            it.obeys_prophetic_iter_laws() == start.obeys_prophetic_iter_laws(),
            start.obeys_prophetic_iter_laws() ==> {
                &&& i <= start.remaining().len()
                &&& it.remaining() == start.remaining().skip(i as int)
            },
            T::write_lawful() && start.obeys_prophetic_iter_laws() && iter_emit::<T, Len, C>(
                lent_all::<T::Src, B>(start.remaining()),
                len as nat,
            ).weight <= usize::MAX ==> wrote_first::<T, Len, C>(
                lent_all::<T::Src, B>(start.remaining()),
                len as nat,
                i as int,
                p0,
                writer.output(),
            ),
        decreases len - i,
    {
        let ghost now = writer.output();
        match it.next() {
            None => {
                proof {
                    lemma_iter_short::<T, Len, C>(
                        lent_all::<T::Src, B>(start.remaining()),
                        len as nat,
                        p0,
                        now,
                    );
                }
                return Err(short_iter());
            },
            Some(item) => {
                let r = T::write(writer, item.lend());
                proof {
                    lemma_iter_step::<T, Len, C>(
                        lent_all::<T::Src, B>(start.remaining()),
                        len as nat,
                        i as int,
                        p0,
                        now,
                        writer.output(),
                        r,
                    );
                    assert(i < start.remaining().len() ==> start.remaining().skip(
                        i as int,
                    ).drop_first() =~= start.remaining().skip(i + 1));
                }
                match r {
                    Ok(()) => {},
                    Err(e) => {
                        return Err(e);
                    },
                }
            },
        }
        i = i + 1;
    }
    proof {
        lemma_iter_end::<T, Len, C>(
            lent_all::<T::Src, B>(start.remaining()),
            len as nat,
            p0,
            writer.output(),
        );
    }
    Ok(())
}

/// `head + len * size`, unless that is too large.
fn total_size(head: usize, len: usize, size: usize) -> (r: Option<usize>)
    ensures
        r == (if head + len * size <= usize::MAX {
            Some((head + len * size) as usize)
        } else {
            None
        }),
{
    match len.checked_mul(size) {
        Some(body) => head.checked_add(body),
        None => None,
    }
}

/// As [`write_elem_iter`], after a check that the sequence can be read back.
pub fn write_elem_iter_prealloc_check<T, Len, C, W, B, I>(
    writer: &mut W,
    len: usize,
    src: I,
) -> (r: WriteResult<()>) where
    C: ConfigCore,
    Len: SeqLen<C>,
    T: SchemaWrite<C>,
    W: Writer,
    B: Lend<T::Src>,
    I: Iterator<Item = B>,

    ensures
        limit_kept::<C, T::Src>(
            len as nat,
            old(writer).output(),
            final(writer).output(),
            r,
        ),
        T::write_lawful() && src.obeys_prophetic_iter_laws() && iter_emit_checked::<T, Len, C>(
            lent_all::<T::Src, B>(src.remaining()),
            len as nat,
        ).weight <= usize::MAX ==> iter_emit_checked::<T, Len, C>(
            lent_all::<T::Src, B>(src.remaining()),
            len as nat,
        ).wrote(old(writer).output(), final(writer).output(), r),
{
    match Len::prealloc_check::<T::Src>(len) {
        Ok(()) => write_elem_iter::<T, Len, C, W, B, I>(writer, len, src),
        Err(e) => {
            proof {
                lemma_wrote_unchecked::<Len, C, T::Src>(
                    len as nat,
                    emit_first::<T, C>(lent_all::<T::Src, B>(src.remaining()), len as nat),
                    old(writer).output(),
                );
            }
            Err(WriteError::from(e))
        },
    }
}

/// A sequence that could not be read back is not written at all.
proof fn lemma_wrote_unchecked<Len: SeqLen<C>, C: ConfigCore, T>(len: nat, body: Emit, p0: Output)
    requires
        !prealloc_ok::<C, T>(len),
    ensures
        len_emit_checked::<Len, C, T>(len).then_emit(body).wrote(
            p0,
            p0,
            Err(prealloc_write_error::<C, T>(len)),
        ),
{
    let head = len_emit_checked::<Len, C, T>(len);
    let e = prealloc_write_error::<C, T>(len);
    lemma_wrote_fail(e, head.weight, p0);
    lemma_wrote_first(head, body, p0, p0, e);
}

/// Why the size of what an iterator yields cannot be told, where it reported the length `len`.
pub open spec fn iter_size_err<T: SchemaWrite<C>, Len: SeqLen<C>, C: ConfigCore>(
    items: Seq<T::Src>,
    len: nat,
) -> Option<WriteError> {
    match Len::len_emit(len).err {
        Some(e) => Some(e),
        None => match T::write_meta() {
            TypeMeta::Static { .. } => None,
            TypeMeta::Dynamic => size_err_all::<T, C>(items),
        },
    }
}

/// The size of what an iterator yields, where it reported the length `len`.
pub open spec fn iter_size<T: SchemaWrite<C>, Len: SeqLen<C>, C: ConfigCore>(
    items: Seq<T::Src>,
    len: nat,
) -> nat {
    Len::len_emit(len).weight + match T::write_meta() {
        TypeMeta::Static { size, .. } => len * (size as nat),
        TypeMeta::Dynamic => emit_all::<T, C>(items).weight,
    }
}

proof fn lemma_size_step<T: SchemaWrite<C>, C: ConfigCore>(items: Seq<T::Src>, i: int)
    ensures
        0 <= i < items.len() ==> {
            &&& emit_all::<T, C>(items.take(i)).weight + T::emit(&items[i]).weight
                == emit_all::<T, C>(items.take(i + 1)).weight
            &&& emit_all::<T, C>(items.take(i + 1)).weight <= emit_all::<T, C>(items).weight
            &&& size_err_all::<T, C>(items.take(i)) is None ==> size_err_all::<T, C>(
                items.take(i + 1),
            ) == T::size_err(&items[i])
            &&& size_err_all::<T, C>(items.take(i + 1)) is Some ==> size_err_all::<T, C>(items)
                == size_err_all::<T, C>(items.take(i + 1))
        },
{
    if 0 <= i < items.len() {
        lemma_emit_all_step::<T, C>(items, i);
        lemma_emit_all_split::<T, C>(items, i + 1);
        assert(items.take(i + 1).drop_last() =~= items.take(i));
        lemma_size_err_prefix::<T, C>(items, i + 1);
    }
}

proof fn lemma_size_err_prefix<T: SchemaWrite<C>, C: ConfigCore>(items: Seq<T::Src>, i: int)
    requires
        0 <= i <= items.len(),
    ensures
        size_err_all::<T, C>(items.take(i)) is Some ==> size_err_all::<T, C>(items)
            == size_err_all::<T, C>(items.take(i)),
    decreases items.len(),
{
    if i == items.len() {
        assert(items.take(i) =~= items);
    } else {
        lemma_size_err_prefix::<T, C>(items.drop_last(), i);
        assert(items.drop_last().take(i) =~= items.take(i));
    }
}

/// The number of bytes that the items of `src` take, with the length `len` in front.
pub fn size_of_elem_iter<T, Len, C, B, I>(len: usize, src: I) -> (r: WriteResult<usize>) where
    C: ConfigCore,
    Len: SeqLen<C>,
    T: SchemaWrite<C>,
    B: Lend<T::Src>,
    I: Iterator<Item = B>,

    ensures
        T::write_lawful() && src.obeys_prophetic_iter_laws() && iter_size::<T, Len, C>(
            lent_all::<T::Src, B>(src.remaining()),
            len as nat,
        ) <= usize::MAX && src.remaining().len() <= usize::MAX ==> match iter_size_err::<T, Len, C>(
            lent_all::<T::Src, B>(src.remaining()),
            len as nat,
        ) {
            Some(e) => r == Err::<usize, WriteError>(e),
            None => r is Ok && r->Ok_0 == iter_size::<T, Len, C>(
                lent_all::<T::Src, B>(src.remaining()),
                len as nat,
            ),
        },
{
    let head: usize = Len::write_bytes_needed(len)?;
    if let TypeMeta::Static { size, .. } = T::type_meta() {
        return match total_size(head, len, size) {
            Some(n) => Ok(n),
            None => Err(write_length_encoding_overflow("usize::MAX")),
        };
    }
    let ghost start = src;
    let mut it = src;
    let mut acc: usize = head;
    let mut i: usize = 0;
    proof {
        assert(lent_all::<T::Src, B>(start.remaining()).take(0) =~= Seq::empty());
    }
    while i < usize::MAX
        invariant
            start == src,
            T::write_meta() is Dynamic,
            Len::len_emit(len as nat).err is None,
            head == Len::len_emit(len as nat).weight,
            it.obeys_prophetic_iter_laws() == start.obeys_prophetic_iter_laws(),
            start.obeys_prophetic_iter_laws() ==> {
                &&& i <= start.remaining().len()
                &&& it.remaining() == start.remaining().skip(i as int)
            },
            T::write_lawful() && start.obeys_prophetic_iter_laws() && iter_size::<T, Len, C>(
                lent_all::<T::Src, B>(start.remaining()),
                len as nat,
            ) <= usize::MAX && start.remaining().len() <= usize::MAX ==> {
                &&& size_err_all::<T, C>(
                    lent_all::<T::Src, B>(start.remaining()).take(i as int),
                ) is None
                &&& acc == head + emit_all::<T, C>(
                    lent_all::<T::Src, B>(start.remaining()).take(i as int),
                ).weight
            },
        decreases usize::MAX - i,
    {
        match it.next() {
            None => {
                proof {
                    assert(lent_all::<T::Src, B>(
                        start.remaining(),
                    ).take(i as int) =~= lent_all::<T::Src, B>(start.remaining())
                        || i < start.remaining().len() || !start.obeys_prophetic_iter_laws());
                }
                return Ok(acc);
            },
            Some(item) => {
                proof {
                    lemma_size_step::<T, C>(lent_all::<T::Src, B>(start.remaining()), i as int);
                    assert(i < start.remaining().len() ==> start.remaining().skip(
                        i as int,
                    ).drop_first() =~= start.remaining().skip(i + 1));
                }
                let n: usize = T::size_of(item.lend())?;
                acc = match acc.checked_add(n) {
                    Some(sum) => sum,
                    None => {
                        return Err(write_length_encoding_overflow("usize::MAX"));
                    },
                };
            },
        }
        i = i + 1;
    }
    match it.next() {
        None => {
            proof {
                assert(lent_all::<T::Src, B>(
                    start.remaining(),
                ).take(i as int) =~= lent_all::<T::Src, B>(start.remaining()) || i
                    < start.remaining().len() || !start.obeys_prophetic_iter_laws());
            }
            Ok(acc)
        },
        Some(_) => Err(write_length_encoding_overflow("usize::MAX")),
    }
}

/// As [`size_of_elem_iter`], for the elements of a slice.
pub fn size_of_elem_slice<T, Len, C>(value: &[T::Src]) -> (r: WriteResult<usize>) where
    C: ConfigCore,
    Len: SeqLen<C>,
    T: SchemaWrite<C>,

    ensures
        T::write_lawful() && seq_emit::<T, Len, C>(value@).weight <= usize::MAX
            ==> match seq_size_err::<T, Len, C>(value@) {
            Some(e) => r == Err::<usize, WriteError>(e),
            None => r is Ok && r->Ok_0 == seq_emit::<T, Len, C>(value@).weight,
        },
{
    proof {
        lemma_emit_all::<T, C>(value@);
    }
    let it = value.iter();
    assert(lent_all::<T::Src, _>(it.remaining()) =~= value@);
    size_of_elem_iter::<T, Len, C, _, _>(value.len(), it)
}

/// As [`write_elem_iter`], for the elements of a slice.
pub fn write_elem_slice<T, Len, C, W>(writer: &mut W, src: &[T::Src]) -> (r: WriteResult<()>) where
    C: ConfigCore,
    Len: SeqLen<C>,
    T: SchemaWrite<C>,
    W: Writer,

    ensures
        T::write_lawful() && seq_emit::<T, Len, C>(src@).weight <= usize::MAX ==> seq_emit::<
            T,
            Len,
            C,
        >(src@).wrote(old(writer).output(), final(writer).output(), r),
{
    proof {
        lemma_emit_first::<T, C>(src@, src@.len());
    }
    let it = src.iter();
    assert(lent_all::<T::Src, _>(it.remaining()) =~= src@);
    write_elem_iter::<T, Len, C, W, _, _>(writer, src.len(), it)
}

/// As [`write_elem_slice`], after a check that the sequence can be read back.
pub fn write_elem_slice_prealloc_check<T, Len, C, W>(
    writer: &mut W,
    src: &[T::Src],
) -> (r: WriteResult<()>) where
    C: ConfigCore,
    Len: SeqLen<C>,
    T: SchemaWrite<C>,
    W: Writer,

    ensures
        limit_kept::<C, T::Src>(
            src@.len(),
            old(writer).output(),
            final(writer).output(),
            r,
        ),
        T::write_lawful() && seq_emit_checked::<T, Len, C>(src@).weight <= usize::MAX
            ==> seq_emit_checked::<T, Len, C>(src@).wrote(
            old(writer).output(),
            final(writer).output(),
            r,
        ),
{
    match Len::prealloc_check::<T::Src>(src.len()) {
        Ok(()) => write_elem_slice::<T, Len, C, W>(writer, src),
        Err(e) => {
            proof {
                lemma_wrote_unchecked::<Len, C, T::Src>(
                    src@.len(),
                    emit_all::<T, C>(src@),
                    old(writer).output(),
                );
            }
            Err(WriteError::from(e))
        },
    }
}

/// The error of an iterator over pairs that ends before or after the length that it reported.
pub open spec fn miscounted_iter_error() -> WriteError {
    WriteError::Custom("ExactSizeIterator did not yield exactly its reported len()")
}

fn miscounted_iter() -> (e: WriteError)
    ensures
        e == miscounted_iter_error(),
{
    WriteError::Custom("ExactSizeIterator did not yield exactly its reported len()")
}

/// Writing the first `len` of `items`, and failing if there are more or fewer.
pub open spec fn emit_exactly<K: SchemaWrite<C>, V: SchemaWrite<C>, C: ConfigCore>(
    items: Seq<(K::Src, V::Src)>,
    len: nat,
) -> Emit {
    if items.len() == len {
        emit_all::<(K, V), C>(items)
    } else if items.len() > len {
        emit_all::<(K, V), C>(items.take(len as int)).then_emit(
            Emit::fail(miscounted_iter_error(), 0),
        )
    } else {
        emit_all::<(K, V), C>(items).then_emit(
            Emit::fail(
                miscounted_iter_error(),
                match <(K, V) as SchemaWrite<C>>::write_meta() {
                    TypeMeta::Static { size, .. } => ((len - items.len()) as nat) * (size as nat),
                    TypeMeta::Dynamic => 0,
                },
            ),
        )
    }
}

/// Writing the pairs that an iterator yields that reported the length `len`.
pub open spec fn kv_iter_emit<
    K: SchemaWrite<C>,
    V: SchemaWrite<C>,
    Len: SeqLen<C>,
    C: ConfigCore,
>(items: Seq<(K::Src, V::Src)>, len: nat) -> Emit {
    Len::len_emit(len).then_emit(emit_exactly::<K, V, C>(items, len))
}

/// As [`kv_iter_emit`], with a check of the memory that the map asks for on read-back.
pub open spec fn kv_iter_emit_checked<
    K: SchemaWrite<C>,
    V: SchemaWrite<C>,
    Len: SeqLen<C>,
    C: ConfigCore,
>(items: Seq<(K::Src, V::Src)>, len: nat) -> Emit {
    len_emit_checked::<Len, C, (K::Src, V::Src)>(len).then_emit(
        emit_exactly::<K, V, C>(items, len),
    )
}

/// What is written of an iterator's pairs, as far as their sizes go.
pub proof fn lemma_emit_exactly<K: SchemaWrite<C>, V: SchemaWrite<C>, C: ConfigCore>(
    items: Seq<(K::Src, V::Src)>,
    len: nat,
)
    ensures
        emit_exactly::<K, V, C>(items, len).consistent(),
        <(K, V) as SchemaWrite<C>>::write_meta() matches TypeMeta::Static { size, .. } ==> {
            &&& emit_exactly::<K, V, C>(items, len).weight == len * size
            &&& !emit_exactly::<K, V, C>(items, len).over_limit()
        },
{
    lemma_emit_all::<(K, V), C>(items);
    if items.len() > len {
        lemma_emit_all::<(K, V), C>(items.take(len as int));
    } else if items.len() < len {
        if let TypeMeta::Static { size, .. } = <(K, V) as SchemaWrite<C>>::write_meta() {
            let m = items.len();
            assert(m * size + (len - m) * size == len * size) by (nonlinear_arith);
        }
    }
}

/// What is written of an iterator's pairs when `i` of them have been written.
proof fn lemma_emit_exactly_split<K: SchemaWrite<C>, V: SchemaWrite<C>, C: ConfigCore>(
    items: Seq<(K::Src, V::Src)>,
    len: nat,
    i: int,
) -> (tail: Emit)
    requires
        0 <= i <= len,
        i <= items.len(),
    ensures
        emit_exactly::<K, V, C>(items, len) == emit_all::<(K, V), C>(items.take(i)).then_emit(
            tail,
        ),
        i == len && i == items.len() ==> tail == Emit::done(Seq::empty()),
        (i == len || i == items.len()) && len != items.len() ==> tail.err == Some(
            miscounted_iter_error(),
        ) && tail.bytes.len() == 0,
{
    let s = if items.len() > len {
        items.take(len as int)
    } else {
        items
    };
    lemma_emit_all_split::<(K, V), C>(s, i);
    assert(s.take(i) =~= items.take(i));
    let mid = emit_all::<(K, V), C>(s.skip(i));
    if items.len() == len {
        mid
    } else {
        let last = Emit::fail(
            miscounted_iter_error(),
            if items.len() > len {
                0
            } else {
                match <(K, V) as SchemaWrite<C>>::write_meta() {
                    TypeMeta::Static { size, .. } => ((len - items.len()) as nat) * (size as nat),
                    TypeMeta::Dynamic => 0,
                }
            },
        );
        lemma_then_associative(emit_all::<(K, V), C>(items.take(i)), mid, last);
        if i == s.len() {
            lemma_then_empty_left(last);
        }
        mid.then_emit(last)
    }
}

proof fn lemma_kv_head<K: SchemaWrite<C>, V: SchemaWrite<C>, Len: SeqLen<C>, C: ConfigCore>(
    items: Seq<(K::Src, V::Src)>,
    len: nat,
    p0: Output,
    now: Output,
    r: WriteResult<()>,
)
    requires
        Len::len_emit(len).wrote(p0, now, r),
    ensures
        r is Ok ==> wrote_first::<(K, V), Len, C>(items, len, 0, p0, now),
        r matches Err(e) ==> kv_iter_emit::<K, V, Len, C>(items, len).wrote(p0, now, Err(e)),
{
    let head = Len::len_emit(len);
    Len::lemma_len_emit(len);
    if let Err(e) = r {
        lemma_wrote_first(head, emit_exactly::<K, V, C>(items, len), p0, now, e);
    }
    assert(items.take(0) =~= Seq::empty());
    assert(head.then_emit(Emit::done(Seq::empty())).bytes =~= head.bytes);
    assert(head.then_emit(Emit::done(Seq::empty())) =~= head);
}

proof fn lemma_kv_overlong<K: SchemaWrite<C>, V: SchemaWrite<C>, Len: SeqLen<C>, C: ConfigCore>(
    items: Seq<(K::Src, V::Src)>,
    len: nat,
    e: WriteError,
    p0: Output,
)
    requires
        Len::len_emit(len).err == Some(e),
    ensures
        kv_iter_emit::<K, V, Len, C>(items, len).wrote(p0, p0, Err(e)),
{
    Len::lemma_len_emit(len);
    assert(Len::len_emit(len).bytes =~= Seq::empty());
    assert(Len::len_emit(len) =~= Emit::fail(e, 0));
    lemma_wrote_fail(e, 0, p0);
    lemma_wrote_first(Len::len_emit(len), emit_exactly::<K, V, C>(items, len), p0, p0, e);
}

proof fn lemma_kv_end<K: SchemaWrite<C>, V: SchemaWrite<C>, Len: SeqLen<C>, C: ConfigCore>(
    items: Seq<(K::Src, V::Src)>,
    len: nat,
    i: int,
    p0: Output,
    now: Output,
)
    ensures
        0 <= i <= len && i <= items.len() && wrote_first::<(K, V), Len, C>(items, len, i, p0, now)
            ==> {
            &&& (i == len || i == items.len()) && items.len() != len ==> kv_iter_emit::<
                K,
                V,
                Len,
                C,
            >(items, len).wrote(p0, now, Err(miscounted_iter_error()))
            &&& i == len && items.len() == len ==> kv_iter_emit::<K, V, Len, C>(
                items,
                len,
            ).wrote(p0, now, Ok(()))
        },
{
    if 0 <= i <= len && i <= items.len() && wrote_first::<(K, V), Len, C>(
        items,
        len,
        i,
        p0,
        now,
    ) {
        let e = miscounted_iter_error();
        let head = Len::len_emit(len);
        let done = emit_all::<(K, V), C>(items.take(i));
        let tail = lemma_emit_exactly_split::<K, V, C>(items, len, i);
        Len::lemma_len_emit(len);
        lemma_emit_all::<(K, V), C>(items.take(i));
        lemma_then_associative(head, done, tail);
        if items.len() != len && (i == len || i == items.len()) {
            assert(tail.bytes =~= Seq::empty());
            assert(tail =~= Emit::fail(e, tail.weight)) by {
                lemma_emit_exactly::<K, V, C>(items, len);
            }
            lemma_wrote_fail(e, tail.weight, now);
            lemma_wrote_then(head.then_emit(done), tail, p0, now, now, Err(e));
        }
        if items.len() == len && i == len {
            assert(items.take(i) =~= items);
        }
    }
}

proof fn lemma_kv_step<K: SchemaWrite<C>, V: SchemaWrite<C>, Len: SeqLen<C>, C: ConfigCore>(
    items: Seq<(K::Src, V::Src)>,
    len: nat,
    i: int,
    p0: Output,
    now: Output,
    next: Output,
    r: WriteResult<()>,
)
    requires
        0 <= i < len,
    ensures
        i < items.len() ==> <(K, V) as SchemaWrite<C>>::emit(&items[i]).weight <= kv_iter_emit::<
            K,
            V,
            Len,
            C,
        >(items, len).weight,
        i < items.len() && wrote_first::<(K, V), Len, C>(items, len, i, p0, now) && <(
            K,
            V,
        ) as SchemaWrite<C>>::emit(&items[i]).wrote(now, next, r) ==> {
            &&& r is Ok ==> wrote_first::<(K, V), Len, C>(items, len, i + 1, p0, next)
            &&& r matches Err(e) ==> kv_iter_emit::<K, V, Len, C>(items, len).wrote(
                p0,
                next,
                Err(e),
            )
        },
{
    if i < items.len() {
        let head = Len::len_emit(len);
        let done = emit_all::<(K, V), C>(items.take(i));
        let one = <(K, V) as SchemaWrite<C>>::emit(&items[i]);
        let tail = lemma_emit_exactly_split::<K, V, C>(items, len, i + 1);
        Len::lemma_len_emit(len);
        lemma_emit_all::<(K, V), C>(items.take(i));
        lemma_emit_all_step::<(K, V), C>(items, i);
        <(K, V) as SchemaWrite<C>>::lemma_emit(&items[i]);
        lemma_then_associative(head, done, one);
        lemma_then_associative(head, done.then_emit(one), tail);
        if wrote_first::<(K, V), Len, C>(items, len, i, p0, now) && one.wrote(now, next, r) {
            lemma_wrote_then(head.then_emit(done), one, p0, now, next, r);
            if let Err(e) = r {
                lemma_wrote_first(head.then_emit(done).then_emit(one), tail, p0, next, e);
            }
        }
    }
}

/// Writes the length `len` and then the pairs of `src`. It is an error if there are more or fewer
/// than `len` of them.
pub fn write_kv_iter<'a, K, V, Len, C, W, I>(writer: &mut W, len: usize, src: I) -> (r: WriteResult<
    (),
>) where
    C: ConfigCore,
    Len: SeqLen<C>,
    K: SchemaWrite<C>,
    V: SchemaWrite<C>,
    K::Src: 'a,
    V::Src: 'a,
    W: Writer,
    I: Iterator<Item = (&'a K::Src, &'a V::Src)>,

    ensures
        K::write_lawful() && V::write_lawful() && src.obeys_prophetic_iter_laws() && kv_iter_emit::<
            K,
            V,
            Len,
            C,
        >(src.remaining().unref(), len as nat).weight <= usize::MAX ==> kv_iter_emit::<
            K,
            V,
            Len,
            C,
        >(src.remaining().unref(), len as nat).wrote(
            old(writer).output(),
            final(writer).output(),
            r,
        ),
{
    let ghost start = src;
    let ghost p0 = writer.output();
    if let TypeMeta::Static { size, .. } = type_meta_of_pair(K::type_meta(), V::type_meta()) {
        proof {
            Len::lemma_len_emit(len as nat);
            lemma_emit_exactly::<K, V, C>(start.remaining().unref(), len as nat);
        }
        let head: usize = match Len::write_bytes_needed(len) {
            Ok(n) => n,
            Err(e) => {
                proof {
                    lemma_kv_overlong::<K, V, Len, C>(
                        start.remaining().unref(),
                        len as nat,
                        e,
                        p0,
                    );
                }
                return Err(e);
            },
        };
        let needed: usize = match total_size(head, len, size) {
            Some(n) => n,
            None => {
                return Err(write_length_encoding_overflow("usize::MAX"));
            },
        };
        match writer.expect_room(needed) {
            Ok(()) => {},
            Err(e) => {
                let e = WriteError::Io(e);
                proof {
                    lemma_wrote_nothing(
                        kv_iter_emit::<K, V, Len, C>(start.remaining().unref(), len as nat),
                        p0,
                        e,
                    );
                }
                return Err(e);
            },
        }
    }
    let r = Len::write(writer, len);
    proof {
        lemma_kv_head::<K, V, Len, C>(
            start.remaining().unref(),
            len as nat,
            p0,
            writer.output(),
            r,
        );
    }
    match r {
        Ok(()) => {},
        Err(e) => {
            return Err(e);
        },
    }
    let mut it = src;
    let mut i: usize = 0;
    while i < len
        invariant
            i <= len,
            start == src,
            p0 == old(writer).output(),
            it.obeys_prophetic_iter_laws() == start.obeys_prophetic_iter_laws(),
            start.obeys_prophetic_iter_laws() ==> {
                &&& i <= start.remaining().len()
                &&& it.remaining() == start.remaining().skip(i as int)
            },
            K::write_lawful() && V::write_lawful() && start.obeys_prophetic_iter_laws()
                && kv_iter_emit::<K, V, Len, C>(start.remaining().unref(), len as nat).weight
                <= usize::MAX ==> wrote_first::<(K, V), Len, C>(
                start.remaining().unref(),
                len as nat,
                i as int,
                p0,
                writer.output(),
            ),
        decreases len - i,
    {
        let ghost now = writer.output();
        match it.next() {
            None => {
                proof {
                    lemma_kv_end::<K, V, Len, C>(
                        start.remaining().unref(),
                        len as nat,
                        i as int,
                        p0,
                        now,
                    );
                }
                return Err(miscounted_iter());
            },
            Some((k, v)) => {
                let r = write_pair::<K, V, C, W>(writer, k, v);
                proof {
                    lemma_kv_step::<K, V, Len, C>(
                        start.remaining().unref(),
                        len as nat,
                        i as int,
                        p0,
                        now,
                        writer.output(),
                        r,
                    );
                    assert(i < start.remaining().len() ==> start.remaining().skip(
                        i as int,
                    ).drop_first() =~= start.remaining().skip(i + 1));
                }
                match r {
                    Ok(()) => {},
                    Err(e) => {
                        return Err(e);
                    },
                }
            },
        }
        i = i + 1;
    }
    proof {
        lemma_kv_end::<K, V, Len, C>(
            start.remaining().unref(),
            len as nat,
            len as int,
            p0,
            writer.output(),
        );
    }
    match it.next() {
        None => Ok(()),
        Some(_) => Err(miscounted_iter()),
    }
}

/// As [`write_kv_iter`], after a check that the map can be read back.
pub fn write_kv_iter_prealloc_check<'a, K, V, Len, C, W, I>(
    writer: &mut W,
    len: usize,
    src: I,
) -> (r: WriteResult<()>) where
    C: ConfigCore,
    Len: SeqLen<C>,
    K: SchemaWrite<C>,
    V: SchemaWrite<C>,
    K::Src: 'a,
    V::Src: 'a,
    W: Writer,
    I: Iterator<Item = (&'a K::Src, &'a V::Src)>,

    ensures
        limit_kept::<C, (K::Src, V::Src)>(
            len as nat,
            old(writer).output(),
            final(writer).output(),
            r,
        ),
        K::write_lawful() && V::write_lawful() && src.obeys_prophetic_iter_laws()
            && kv_iter_emit_checked::<K, V, Len, C>(src.remaining().unref(), len as nat).weight
            <= usize::MAX ==> kv_iter_emit_checked::<K, V, Len, C>(
            src.remaining().unref(),
            len as nat,
        ).wrote(old(writer).output(), final(writer).output(), r),
{
    match Len::prealloc_check::<(K::Src, V::Src)>(len) {
        Ok(()) => write_kv_iter::<K, V, Len, C, W, I>(writer, len, src),
        Err(e) => {
            proof {
                lemma_wrote_unchecked::<Len, C, (K::Src, V::Src)>(
                    len as nat,
                    emit_exactly::<K, V, C>(src.remaining().unref(), len as nat),
                    old(writer).output(),
                );
            }
            Err(WriteError::from(e))
        },
    }
}

/// Why the sizes of some key or value cannot be told, by the first such.
pub open spec fn kv_size_err_all<K: SchemaWrite<C>, V: SchemaWrite<C>, C: ConfigCore>(
    s: Seq<(K::Src, V::Src)>,
) -> Option<WriteError>
    decreases s.len(),
{
    if s.len() == 0 {
        None
    } else {
        match kv_size_err_all::<K, V, C>(s.drop_last()) {
            Some(e) => Some(e),
            None => pair_size_err::<K, V, C>(&s.last().0, &s.last().1),
        }
    }
}

/// Why the size of a map cannot be told, where its iterator reported the length `len`.
pub open spec fn kv_iter_size_err<
    K: SchemaWrite<C>,
    V: SchemaWrite<C>,
    Len: SeqLen<C>,
    C: ConfigCore,
>(items: Seq<(K::Src, V::Src)>, len: nat) -> Option<WriteError> {
    match Len::len_emit(len).err {
        Some(e) => Some(e),
        None => match <(K, V) as SchemaWrite<C>>::write_meta() {
            TypeMeta::Static { .. } => None,
            TypeMeta::Dynamic => kv_size_err_all::<K, V, C>(items),
        },
    }
}

/// The size of a map, where its iterator reported the length `len`.
pub open spec fn kv_iter_size<
    K: SchemaWrite<C>,
    V: SchemaWrite<C>,
    Len: SeqLen<C>,
    C: ConfigCore,
>(items: Seq<(K::Src, V::Src)>, len: nat) -> nat {
    Len::len_emit(len).weight + match <(K, V) as SchemaWrite<C>>::write_meta() {
        TypeMeta::Static { size, .. } => len * (size as nat),
        TypeMeta::Dynamic => emit_all::<(K, V), C>(items).weight,
    }
}

proof fn lemma_kv_size_err_prefix<K: SchemaWrite<C>, V: SchemaWrite<C>, C: ConfigCore>(
    items: Seq<(K::Src, V::Src)>,
    i: int,
)
    requires
        0 <= i <= items.len(),
    ensures
        kv_size_err_all::<K, V, C>(items.take(i)) is Some ==> kv_size_err_all::<K, V, C>(items)
            == kv_size_err_all::<K, V, C>(items.take(i)),
    decreases items.len(),
{
    if i == items.len() {
        assert(items.take(i) =~= items);
    } else {
        lemma_kv_size_err_prefix::<K, V, C>(items.drop_last(), i);
        assert(items.drop_last().take(i) =~= items.take(i));
    }
}

proof fn lemma_kv_size_step<K: SchemaWrite<C>, V: SchemaWrite<C>, C: ConfigCore>(
    items: Seq<(K::Src, V::Src)>,
    i: int,
)
    ensures
        0 <= i < items.len() ==> {
            &&& emit_all::<(K, V), C>(items.take(i)).weight + pair_emit::<K, V, C>(
                &items[i].0,
                &items[i].1,
            ).weight == emit_all::<(K, V), C>(items.take(i + 1)).weight
            &&& emit_all::<(K, V), C>(items.take(i + 1)).weight <= emit_all::<(K, V), C>(
                items,
            ).weight
            &&& kv_size_err_all::<K, V, C>(items.take(i)) is None ==> kv_size_err_all::<K, V, C>(
                items.take(i + 1),
            ) == pair_size_err::<K, V, C>(&items[i].0, &items[i].1)
            &&& kv_size_err_all::<K, V, C>(items.take(i + 1)) is Some ==> kv_size_err_all::<
                K,
                V,
                C,
            >(items) == kv_size_err_all::<K, V, C>(items.take(i + 1))
        },
{
    if 0 <= i < items.len() {
        lemma_emit_all_step::<(K, V), C>(items, i);
        lemma_emit_all_split::<(K, V), C>(items, i + 1);
        assert(items.take(i + 1).drop_last() =~= items.take(i));
        lemma_kv_size_err_prefix::<K, V, C>(items, i + 1);
    }
}

/// The number of bytes that the pairs of `src` take, with the length `len` in front.
pub fn size_of_kv_iter<'a, K, V, Len, C, I>(len: usize, src: I) -> (r: WriteResult<usize>) where
    C: ConfigCore,
    Len: SeqLen<C>,
    K: SchemaWrite<C>,
    V: SchemaWrite<C>,
    K::Src: 'a,
    V::Src: 'a,
    I: Iterator<Item = (&'a K::Src, &'a V::Src)>,

    ensures
        K::write_lawful() && V::write_lawful() && src.obeys_prophetic_iter_laws() && kv_iter_size::<
            K,
            V,
            Len,
            C,
        >(src.remaining().unref(), len as nat) <= usize::MAX && src.remaining().len() <= usize::MAX
            ==> match kv_iter_size_err::<K, V, Len, C>(src.remaining().unref(), len as nat) {
            Some(e) => r == Err::<usize, WriteError>(e),
            None => r is Ok && r->Ok_0 == kv_iter_size::<K, V, Len, C>(
                src.remaining().unref(),
                len as nat,
            ),
        },
{
    let head: usize = Len::write_bytes_needed(len)?;
    if let TypeMeta::Static { size, .. } = type_meta_of_pair(K::type_meta(), V::type_meta()) {
        return match total_size(head, len, size) {
            Some(n) => Ok(n),
            None => Err(write_length_encoding_overflow("usize::MAX")),
        };
    }
    let ghost start = src;
    let mut it = src;
    let mut acc: usize = head;
    let mut i: usize = 0;
    proof {
        assert(start.remaining().unref().take(0) =~= Seq::empty());
    }
    while i < usize::MAX
        invariant
            start == src,
            <(K, V) as SchemaWrite<C>>::write_meta() is Dynamic,
            Len::len_emit(len as nat).err is None,
            head == Len::len_emit(len as nat).weight,
            it.obeys_prophetic_iter_laws() == start.obeys_prophetic_iter_laws(),
            start.obeys_prophetic_iter_laws() ==> {
                &&& i <= start.remaining().len()
                &&& it.remaining() == start.remaining().skip(i as int)
            },
            K::write_lawful() && V::write_lawful() && start.obeys_prophetic_iter_laws()
                && kv_iter_size::<K, V, Len, C>(start.remaining().unref(), len as nat)
                <= usize::MAX && start.remaining().len() <= usize::MAX ==> {
                &&& kv_size_err_all::<K, V, C>(start.remaining().unref().take(i as int)) is None
                &&& acc == head + emit_all::<(K, V), C>(
                    start.remaining().unref().take(i as int),
                ).weight
            },
        decreases usize::MAX - i,
    {
        match it.next() {
            None => {
                proof {
                    assert(start.remaining().unref().take(
                        i as int,
                    ) =~= start.remaining().unref() || i
                        < start.remaining().len() || !start.obeys_prophetic_iter_laws());
                }
                return Ok(acc);
            },
            Some((k, v)) => {
                proof {
                    lemma_kv_size_step::<K, V, C>(start.remaining().unref(), i as int);
                    assert(i < start.remaining().len() ==> start.remaining().skip(
                        i as int,
                    ).drop_first() =~= start.remaining().skip(i + 1));
                }
                let n: usize = size_of_pair::<K, V, C>(k, v)?;
                acc = match acc.checked_add(n) {
                    Some(sum) => sum,
                    None => {
                        return Err(write_length_encoding_overflow("usize::MAX"));
                    },
                };
            },
        }
        i = i + 1;
    }
    match it.next() {
        None => {
            proof {
                assert(start.remaining().unref().take(i as int) =~= start.remaining().unref() || i
                    < start.remaining().len() || !start.obeys_prophetic_iter_laws());
            }
            Ok(acc)
        },
        Some(_) => Err(write_length_encoding_overflow("usize::MAX")),
    }
}

} // verus!
