//! Sequences that come from an iterator, or from a collection that can be walked through.
use crate::config::ConfigCore;
use crate::error::{WriteError, WriteResult};
use crate::io::Writer;
use crate::len::{limit_kept, prealloc_ok, SeqLen};
use crate::model::{Fault, Input, Output};
use crate::schema::containers::decode::{all_valid, src_vals};
use crate::schema::containers::seq::{lemma_seq_round_trip, seq_dec, seq_round_trips};
use crate::schema::elems::{
    emit_all, iter_emit, iter_emit_checked, lemma_emit_first, lent_all, seq_emit,
    seq_emit_checked,
    write_elem_iter, write_elem_iter_prealloc_check, Lend,
};
use crate::schema::{RoundTrip, SchemaRead, SchemaWrite};
use vstd::prelude::*;
use vstd::std_specs::iter::IteratorSpec;

verus! {

broadcast use {
    crate::model::lemma_follows_transitive,
    crate::model::lemma_follows_reflexive,
    crate::schema::elems::lemma_lent_refs,
};

/// Writes the length `len` and the first `len` items of `src`, after a check that the sequence can
/// be read back. The items need not be gathered beforehand. It is an error if there are fewer than
/// `len`, and any beyond are left.
pub fn encode_from_iter_prealloc_check<T, Len, C, W, B, I>(
    writer: &mut W,
    len: usize,
    src: I,
) -> (r: WriteResult<()>) where
    C: ConfigCore,
    Len: SeqLen<C>,
    T: SchemaWrite<C>,
    W: Writer,
    B: Lend<T::Src>,
    I: Iterator<Item = B>,

    ensures
        limit_kept::<C, T::Src>(
            len as nat,
            old(writer).output(),
            final(writer).output(),
            r,
        ),
        T::write_lawful() && src.obeys_prophetic_iter_laws() && iter_emit_checked::<T, Len, C>(
            lent_all::<T::Src, B>(src.remaining()),
            len as nat,
        ).weight <= usize::MAX ==> iter_emit_checked::<T, Len, C>(
            lent_all::<T::Src, B>(src.remaining()),
            len as nat,
        ).wrote(old(writer).output(), final(writer).output(), r),
{
    write_elem_iter_prealloc_check::<T, Len, C, W, B, I>(writer, len, src)
}

/// As [`encode_from_iter_prealloc_check`], without the check. A sequence that asks for more memory
/// than the configuration allows is written, and refused on read-back.
pub fn encode_from_iter<T, Len, C, W, B, I>(writer: &mut W, len: usize, src: I) -> (r: WriteResult<
    (),
>) where
    C: ConfigCore,
    Len: SeqLen<C>,
    T: SchemaWrite<C>,
    W: Writer,
    B: Lend<T::Src>,
    I: Iterator<Item = B>,

    ensures
        T::write_lawful() && src.obeys_prophetic_iter_laws() && iter_emit::<T, Len, C>(
            lent_all::<T::Src, B>(src.remaining()),
            len as nat,
        ).weight <= usize::MAX ==> iter_emit::<T, Len, C>(
            lent_all::<T::Src, B>(src.remaining()),
            len as nat,
        ).wrote(old(writer).output(), final(writer).output(), r),
{
    write_elem_iter::<T, Len, C, W, B, I>(writer, len, src)
}

/// Items that come from an iterator which reported their number are written as a vector of them
/// is, with the check of memory and without.
pub proof fn law_iter_encodes_like_a_vector<T: SchemaWrite<C>, Len: SeqLen<C>, C: ConfigCore>(
    items: Seq<T::Src>,
)
    ensures
        iter_emit::<T, Len, C>(items, items.len()) == seq_emit::<T, Len, C>(items),
        iter_emit_checked::<T, Len, C>(items, items.len()) == seq_emit_checked::<T, Len, C>(items),
{
    lemma_emit_first::<T, C>(items, items.len());
}

/// Where the check of memory passes, it leaves no trace in what is written.
pub proof fn law_check_leaves_no_trace<T: SchemaWrite<C>, Len: SeqLen<C>, C: ConfigCore>(
    items: Seq<T::Src>,
    len: nat,
)
    requires
        prealloc_ok::<C, T::Src>(len),
    ensures
        iter_emit_checked::<T, Len, C>(items, len) == iter_emit::<T, Len, C>(items, len),
{
}

/// A sequence that asks for more memory than the configuration allows is refused for that on
/// writing, whatever room there is, and nothing is written.
pub proof fn law_oversized_write_is_refused<T: SchemaWrite<C>, Len: SeqLen<C>, C: ConfigCore>(
    items: Seq<T::Src>,
    len: nat,
    pre: Output,
    post: Output,
    r: WriteResult<()>,
)
    requires
        iter_emit_checked::<T, Len, C>(items, len).wrote(pre, post, r),
    ensures
        limit_kept::<C, T::Src>(len, pre, post, r),
{
    if !prealloc_ok::<C, T::Src>(len) {
        assert(post.bytes =~= pre.bytes);
        assert(post =~= pre);
    }
}

/// A sequence that asks for no more memory than the configuration allows is not refused for that,
/// unless one of its items is.
pub proof fn law_limit_error_comes_of_the_limit<
    T: SchemaWrite<C>,
    Len: SeqLen<C>,
    C: ConfigCore,
>(items: Seq<T::Src>, len: nat, pre: Output, post: Output, e: WriteError)
    requires
        prealloc_ok::<C, T::Src>(len),
        forall|i: int| 0 <= i < items.len() ==> !(#[trigger] T::emit(&items[i])).over_limit(),
        iter_emit_checked::<T, Len, C>(items, len).wrote(pre, post, Err(e)),
    ensures
        !(e is PreallocationSizeLimit),
{
    Len::lemma_len_emit(len);
    if items.len() >= len {
        lemma_none_over_limit::<T, C>(items.take(len as int));
    } else {
        lemma_none_over_limit::<T, C>(items);
    }
}

proof fn lemma_none_over_limit<T: SchemaWrite<C>, C: ConfigCore>(items: Seq<T::Src>)
    requires
        forall|i: int| 0 <= i < items.len() ==> !(#[trigger] T::emit(&items[i])).over_limit(),
    ensures
        !emit_all::<T, C>(items).over_limit(),
    decreases items.len(),
{
    if items.len() > 0 {
        lemma_none_over_limit::<T, C>(items.drop_last());
    }
}

/// A sequence that the check of memory lets pass on writing is accepted on read-back, under the
/// same configuration and with the same layout of lengths, and gives back the values of the items.
pub proof fn law_checked_sequence_reads_back<
    'de,
    T: RoundTrip<'de, C>,
    Len: SeqLen<C>,
    C: ConfigCore,
>(items: Seq<T::Src>, rest: Input)
    requires
        seq_round_trips::<T, C>(),
        all_valid::<T, C>(items),
        T::needs_backing() ==> rest.backing,
        items.len() <= usize::MAX,
        iter_emit_checked::<T, Len, C>(items, items.len()).ok(),
        iter_emit_checked::<T, Len, C>(items, items.len()).weight <= usize::MAX,
    ensures
        seq_dec::<T, Len, C>(
            rest.prepend(iter_emit_checked::<T, Len, C>(items, items.len()).bytes),
        ) == Ok::<_, Fault>((src_vals::<T, C>(items), rest)),
{
    law_iter_encodes_like_a_vector::<T, Len, C>(items);
    lemma_seq_round_trip::<T, Len, C>(items, rest);
}

/// A sequence that asks for more memory than the configuration allows is refused on read-back,
/// however it came to be written.
pub proof fn law_oversized_sequence_is_refused<
    'de,
    T: SchemaRead<'de, C>,
    Len: SeqLen<C>,
    C: ConfigCore,
>(len: nat, rest: Input)
    requires
        len <= usize::MAX,
        Len::len_emit(len).ok(),
        !prealloc_ok::<C, T::Dst>(len),
    ensures
        seq_dec::<T, Len, C>(rest.prepend(Len::len_emit(len).bytes)) == Err::<
            (Seq<T::Val>, Input),
            Fault,
        >(rest.fault(crate::len::prealloc_read_error::<C, T::Dst>(len))),
{
    Len::lemma_len_round_trip(len, rest);
}

/// A collection whose items can be walked through.
pub trait Walk {
    /// What the collection holds.
    type Item;

    /// Whether the collection tells its items apart as it should.
    spec fn walk_lawful() -> bool;

    /// The items, in the order of the walk.
    spec fn items(&self) -> Seq<Self::Item>;

    /// Whether the walk comes by all that the collection holds: by each element of a set once.
    spec fn walks_all(&self) -> bool;

    /// References to the items, in the order of the walk.
    fn walk(&self) -> (refs: std::vec::Vec<&Self::Item>)
        ensures
            Self::walk_lawful() ==> refs@.unref() == self.items() && self.walks_all(),
    ;
}

/// A collection of key-value pairs that can be walked through.
pub trait WalkPairs {
    /// What the pairs are found by.
    type Key;

    /// What is found.
    type Value;

    /// Whether the collection tells its keys apart as it should.
    spec fn walk_lawful() -> bool;

    /// The pairs, in the order of the walk.
    spec fn pairs(&self) -> Seq<(Self::Key, Self::Value)>;

    /// Whether the walk comes by each entry of the collection once.
    spec fn walks_all(&self) -> bool;

    /// References to the pairs, in the order of the walk.
    fn walk_pairs(&self) -> (refs: std::vec::Vec<(&Self::Key, &Self::Value)>)
        ensures
            Self::walk_lawful() ==> refs@.unref() == self.pairs() && self.walks_all(),
    ;
}

/// A collection that can be made of items of the type `A`.
pub trait Gather<A>: Sized {
    /// What the collection is in the mathematical picture: a sequence, a set or a map.
    type Made;

    /// Whether the collection tells its items apart as it should.
    spec fn lawful() -> bool;

    /// What results from putting `items` into an empty collection in turn.
    spec fn made_of(items: Seq<A>) -> Self::Made;

    /// What this collection is.
    spec fn made(&self) -> Self::Made;

    /// The collection that results from putting `items` in, in turn.
    fn gather(items: std::vec::Vec<A>) -> (coll: Self)
        ensures
            Self::lawful() ==> coll.made() == Self::made_of(items@),
    ;
}

/// The result at `i` is the error `e`, and none before it is an error.
pub open spec fn fails_first_at<A, E>(results: Seq<Result<A, E>>, i: int, e: E) -> bool {
    &&& 0 <= i < results.len()
    &&& results[i] == Err::<A, E>(e)
    &&& forall|j: int| 0 <= j < i ==> #[trigger] results[j] is Ok
}

/// The first error among `results` is `e`.
pub open spec fn first_error_is<A, E>(results: Seq<Result<A, E>>, e: E) -> bool {
    exists|i: int| fails_first_at(results, i, e)
}

/// `items` are the values of `results`, none of which is an error.
pub open spec fn all_ok<A, E>(results: Seq<Result<A, E>>, items: Seq<A>) -> bool {
    &&& items.len() == results.len()
    &&& forall|i: int|
        0 <= i < results.len() ==> #[trigger] results[i] == Ok::<A, E>(items[i])
}

/// `coll` is what the values of `results` make, none of which is an error.
pub open spec fn gathered<A, E, V: Gather<A>>(results: Seq<Result<A, E>>, coll: V) -> bool {
    exists|items: Seq<A>| #[trigger]
        all_ok(results, items) && (V::lawful() ==> coll.made() == V::made_of(items))
}

/// `left` is what comes behind the first error among `results`, which is `e`.
pub open spec fn stopped_at<A, E>(
    results: Seq<Result<A, E>>,
    e: E,
    left: Seq<Result<A, E>>,
) -> bool {
    exists|i: int| #[trigger] fails_first_at(results, i, e) && left == results.skip(i + 1)
}

/// Gathers the values that `results` hands out, or gives back the first error among them. What
/// comes behind an error is left.
pub fn collect_from<A, E, V: Gather<A>, I: Iterator<Item = Result<A, E>>>(
    results: &mut I,
) -> (r: Result<V, E>)
    requires
        (*old(results)).obeys_prophetic_iter_laws(),
        (*old(results)).decrease() is Some,
    ensures
        match r {
            Ok(coll) => {
                &&& gathered((*old(results)).remaining(), coll)
                &&& (*final(results)).remaining().len() == 0
            },
            Err(e) => stopped_at((*old(results)).remaining(), e, (*final(results)).remaining()),
        },
{
    let ghost start = *results;
    let mut items: std::vec::Vec<A> = std::vec::Vec::new();
    loop
        invariant
            start == *old(results),
            (*results).obeys_prophetic_iter_laws(),
            (*results).decrease() is Some,
            items@.len() <= start.remaining().len(),
            (*results).remaining() == start.remaining().skip(items@.len() as int),
            all_ok(start.remaining().take(items@.len() as int), items@),
        decreases (*results).decrease()->0,
    {
        let ghost done: int = items@.len() as int;
        match results.next() {
            None => {
                proof {
                    assert(start.remaining().take(done) =~= start.remaining());
                    assert(all_ok(start.remaining(), items@));
                }
                let coll = V::gather(items);
                proof {
                    assert(gathered(start.remaining(), coll));
                }
                return Ok(coll);
            },
            Some(Err(e)) => {
                proof {
                    let all = start.remaining();
                    assert forall|j: int| 0 <= j < done implies #[trigger] all[j] is Ok by {
                        assert(all.take(done)[j] is Ok);
                    }
                    assert(all.skip(done).drop_first() =~= all.skip(done + 1));
                    assert(fails_first_at(all, done, e));
                    assert(stopped_at(all, e, (*results).remaining()));
                }
                return Err(e);
            },
            Some(Ok(item)) => {
                items.push(item);
                proof {
                    let all = start.remaining();
                    assert(all.take(done + 1) =~= all.take(done).push(all[done]));
                    assert(all.skip(done).drop_first() =~= all.skip(done + 1));
                }
            },
        }
    }
}

/// As [`collect_from`], with an iterator that is used up.
pub fn collect_result_prealloc<A, E, V: Gather<A>, I: Iterator<Item = Result<A, E>>>(
    results: I,
) -> (r: Result<V, E>)
    requires
        results.obeys_prophetic_iter_laws(),
        results.decrease() is Some,
    ensures
        match r {
            Ok(coll) => gathered(results.remaining(), coll),
            Err(e) => first_error_is(results.remaining(), e),
        },
{
    let mut it = results;
    let r = collect_from::<A, E, V, I>(&mut it);
    proof {
        if r is Err {
            assert(first_error_is(results.remaining(), r->Err_0));
        }
    }
    r
}

} // verus!
